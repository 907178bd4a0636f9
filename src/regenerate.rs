use vstd::prelude::*;
use vstd::set_lib::{lemma_int_range, lemma_len_subset, set_int_range};
use crate::cluster_crypto::ClusterCryptoObjectsInternal;
use crate::objects::{
    CertKeyPair, Certificate, DistributedCert, DistributedJwt, DistributedPrivateKey, DistributedPublicKey,
    JwtSigner, RsaKey, Signee,
};

verus! {

/// Pre-generated keys, handed out one at a time.
pub struct RsaKeyPool {
    pub keys: Vec<RsaKey>,
}

impl RsaKeyPool {
    pub fn new(keys: Vec<RsaKey>) -> (r: RsaKeyPool)
        ensures
            r.keys@ == keys@,
    {
        RsaKeyPool { keys }
    }

    pub fn remaining(&self) -> (r: usize)
        ensures
            r == self.keys@.len(),
    {
        self.keys.len()
    }

    pub fn take_key(&mut self) -> (r: RsaKey)
        requires
            old(self).keys@.len() > 0,
        ensures
            r == old(self).keys@.last(),
            final(self).keys@ == old(self).keys@.drop_last(),
    {
        self.keys.pop().unwrap()
    }
}

/// Why the graph could not be re-issued, or does not look re-issued.
#[derive(Clone, Copy, PartialEq, Eq, Structural, Debug)]
pub enum RegenerationError {
    /// This pair's chain of signers never reaches a root.
    Unreachable(usize),
    /// An artifact was left as it was.
    NotRegenerated(Signee),
    /// The signer of this pair was not regenerated, lists no signees, or does not list it.
    SignerIncomplete(usize),
    /// A private key was left as it was.
    PrivateKeyNotRegenerated(usize),
    /// A public key was left as it was.
    PublicKeyNotRegenerated(usize),
    /// Some certificate was never paired.
    UnpairedCertificates,
}

/// The key that signs pair `i`'s re-issued certificate: its signer's, or its own for a root.
pub open spec fn signing_key(pairs: Seq<CertKeyPair>, i: int) -> u64 {
    match pairs[i].signer {
        None => pairs[i].key->0.private,
        Some(s) => pairs[s as int].key->0.private,
    }
}

/// The key that signs token `t` as re-issued.
pub open spec fn jwt_signing_key(s: ClusterCryptoObjectsInternal, t: int) -> u64 {
    match s.jwts@[t].signer {
        JwtSigner::PrivateKey(k) => s.private_keys@[k as int].key,
        JwtSigner::CertKeyPair(p) => s.cert_key_pairs@[p as int].key->0.private,
        JwtSigner::Unknown => 0,
    }
}

/// Pair `i` was re-issued: a fresh key, a certificate for that key signed by
/// the signer's key, and its private key record replaced.
pub open spec fn pair_reissued(pairs: Seq<CertKeyPair>, i: int) -> bool {
    let p = pairs[i];
    &&& p.regenerated
    &&& p.key is Some
    &&& p.distributed_cert.certificate.public_key == p.key->0.public
    &&& p.distributed_cert.signed_by == Some(signing_key(pairs, i))
    &&& p.signer matches Some(s) ==> s < pairs.len() && pairs[s as int].regenerated
    &&& p.distributed_private_key matches Some(d) ==> d.key == p.key->0.private && d.public
        == p.key->0.public && d.regenerated
}

/// The links of the graph point at records that exist, and every token has a signer.
pub open spec fn links_valid(s: ClusterCryptoObjectsInternal) -> bool {
    &&& forall|i: int|
        0 <= i < s.cert_key_pairs@.len() ==> {
            let p = #[trigger] s.cert_key_pairs@[i];
            &&& p.signer matches Some(g) ==> g < s.cert_key_pairs@.len()
            &&& p.associated_public_key matches Some(a) ==> a < s.public_keys@.len()
        }
    &&& forall|k: int|
        0 <= k < s.private_keys@.len() ==> ((#[trigger] s.private_keys@[k]).associated_public_key matches Some(a) ==> a < s.public_keys@.len())
    &&& forall|t: int|
        0 <= t < s.jwts@.len() ==> match (#[trigger] s.jwts@[t]).signer {
            JwtSigner::Unknown => false,
            JwtSigner::PrivateKey(k) => k < s.private_keys@.len(),
            JwtSigner::CertKeyPair(p) => p < s.cert_key_pairs@.len(),
        }
}

pub open spec fn signee_regenerated(s: ClusterCryptoObjectsInternal, x: Signee) -> bool {
    match x {
        Signee::CertKeyPair(p) => p < s.cert_key_pairs@.len() && s.cert_key_pairs@[p as int].regenerated,
        Signee::Jwt(t) => t < s.jwts@.len() && s.jwts@[t as int].regenerated,
    }
}

/// What a finished regeneration looks like: every record regenerated, every
/// signer of a pair regenerated and listing that pair among a non-empty list
/// of regenerated signees, and no certificate left unpaired.
pub open spec fn regeneration_complete(s: ClusterCryptoObjectsInternal) -> bool {
    &&& forall|i: int| 0 <= i < s.cert_key_pairs@.len() ==> (#[trigger] s.cert_key_pairs@[i]).regenerated
    &&& forall|i: int|
        0 <= i < s.cert_key_pairs@.len() ==> ((#[trigger] s.cert_key_pairs@[i]).signer matches Some(g)
            ==> {
            &&& g < s.cert_key_pairs@.len()
            &&& s.cert_key_pairs@[g as int].regenerated
            &&& s.cert_key_pairs@[g as int].signees@.len() > 0
            &&& s.cert_key_pairs@[g as int].signees@.contains(Signee::CertKeyPair(i as usize))
        })
    &&& forall|i: int, x: Signee|
        0 <= i < s.cert_key_pairs@.len() && #[trigger] s.cert_key_pairs@[i].signees@.contains(x)
            ==> signee_regenerated(s, x)
    &&& forall|k: int, x: Signee|
        0 <= k < s.private_keys@.len() && #[trigger] s.private_keys@[k].signees@.contains(x)
            ==> signee_regenerated(s, x)
    &&& forall|k: int| 0 <= k < s.private_keys@.len() ==> (#[trigger] s.private_keys@[k]).regenerated
    &&& forall|k: int| 0 <= k < s.public_keys@.len() ==> (#[trigger] s.public_keys@[k]).regenerated
    &&& forall|t: int| 0 <= t < s.jwts@.len() ==> (#[trigger] s.jwts@[t]).regenerated
    &&& s.certs@.len() == 0
}

pub fn lists_signee(v: &Vec<Signee>, x: Signee) -> (r: bool)
    ensures
        r == v@.contains(x),
{
    let mut i: usize = 0;
    while i < v.len()
        invariant
            i <= v@.len(),
            forall|j: int| 0 <= j < i ==> v@[j] != x,
        decreases v@.len() - i,
    {
        if v[i] == x {
            return true;
        }
        i = i + 1;
    }
    false
}

impl ClusterCryptoObjectsInternal {
    pub fn signee_is_regenerated(&self, x: Signee) -> (r: bool)
        ensures
            r == signee_regenerated(*self, x),
    {
        match x {
            Signee::CertKeyPair(p) => p < self.cert_key_pairs.len() && self.cert_key_pairs[p].regenerated,
            Signee::Jwt(t) => t < self.jwts.len() && self.jwts[t].regenerated,
        }
    }

    /// The first signee in `v` that was not regenerated, if any.
    fn first_stale_signee(&self, v: &Vec<Signee>) -> (r: Option<Signee>)
        ensures
            match r {
                None => forall|x: Signee| v@.contains(x) ==> signee_regenerated(*self, x),
                Some(x) => v@.contains(x) && !signee_regenerated(*self, x),
            },
    {
        let mut i: usize = 0;
        while i < v.len()
            invariant
                i <= v@.len(),
                forall|j: int| 0 <= j < i ==> signee_regenerated(*self, v@[j]),
            decreases v@.len() - i,
        {
            if !self.signee_is_regenerated(v[i]) {
                assert(v@.contains(v@[i as int]));
                return Some(v[i]);
            }
            i = i + 1;
        }
        assert forall|x: Signee| v@.contains(x) implies signee_regenerated(*self, x) by {
            let j = choose|j: int| 0 <= j < v@.len() && v@[j] == x;
        }
        None
    }

    /// Checks that regeneration left nothing behind (see `regeneration_complete`).
    pub fn assert_regeneration(&self) -> (r: Result<(), RegenerationError>)
        ensures
            r is Ok <==> regeneration_complete(*self),
            r matches Err(e) ==> !(e is Unreachable),
    {
        let n = self.cert_key_pairs.len();
        let mut i: usize = 0;
        while i < n
            invariant
                n == self.cert_key_pairs@.len(),
                i <= n,
                forall|m: int| 0 <= m < i ==> (#[trigger] self.cert_key_pairs@[m]).regenerated,
                forall|m: int|
                    0 <= m < i ==> ((#[trigger] self.cert_key_pairs@[m]).signer matches Some(g) ==> {
                        &&& g < n
                        &&& self.cert_key_pairs@[g as int].regenerated
                        &&& self.cert_key_pairs@[g as int].signees@.len() > 0
                        &&& self.cert_key_pairs@[g as int].signees@.contains(Signee::CertKeyPair(m as usize))
                    }),
                forall|m: int, x: Signee|
                    0 <= m < i && #[trigger] self.cert_key_pairs@[m].signees@.contains(x)
                        ==> signee_regenerated(*self, x),
            decreases n - i,
        {
            let pair = &self.cert_key_pairs[i];
            if let Some(g) = pair.signer {
                if g >= n || !self.cert_key_pairs[g].regenerated || self.cert_key_pairs[g].signees.len() == 0
                    || !lists_signee(&self.cert_key_pairs[g].signees, Signee::CertKeyPair(i)) {
                    return Err(RegenerationError::SignerIncomplete(i));
                }
            }
            if !pair.regenerated {
                return Err(RegenerationError::NotRegenerated(Signee::CertKeyPair(i)));
            }
            if let Some(x) = self.first_stale_signee(&pair.signees) {
                return Err(RegenerationError::NotRegenerated(x));
            }
            i = i + 1;
        }
        let nk = self.private_keys.len();
        let mut k: usize = 0;
        while k < nk
            invariant
                nk == self.private_keys@.len(),
                k <= nk,
                forall|m: int| 0 <= m < k ==> (#[trigger] self.private_keys@[m]).regenerated,
                forall|m: int, x: Signee|
                    0 <= m < k && #[trigger] self.private_keys@[m].signees@.contains(x)
                        ==> signee_regenerated(*self, x),
            decreases nk - k,
        {
            if !self.private_keys[k].regenerated {
                return Err(RegenerationError::PrivateKeyNotRegenerated(k));
            }
            if let Some(x) = self.first_stale_signee(&self.private_keys[k].signees) {
                return Err(RegenerationError::NotRegenerated(x));
            }
            k = k + 1;
        }
        let np = self.public_keys.len();
        let mut k: usize = 0;
        while k < np
            invariant
                np == self.public_keys@.len(),
                k <= np,
                forall|m: int| 0 <= m < k ==> (#[trigger] self.public_keys@[m]).regenerated,
            decreases np - k,
        {
            if !self.public_keys[k].regenerated {
                return Err(RegenerationError::PublicKeyNotRegenerated(k));
            }
            k = k + 1;
        }
        let nt = self.jwts.len();
        let mut t: usize = 0;
        while t < nt
            invariant
                nt == self.jwts@.len(),
                t <= nt,
                forall|m: int| 0 <= m < t ==> (#[trigger] self.jwts@[m]).regenerated,
            decreases nt - t,
        {
            if !self.jwts[t].regenerated {
                return Err(RegenerationError::NotRegenerated(Signee::Jwt(t)));
            }
            t = t + 1;
        }
        if self.certs.len() != 0 {
            return Err(RegenerationError::UnpairedCertificates);
        }
        Ok(())
    }
}

/// Pair `p` re-issued with key `k`, its certificate signed by `parent`.
pub open spec fn reissued_pair(p: CertKeyPair, k: RsaKey, parent: u64) -> CertKeyPair {
    CertKeyPair {
        distributed_cert: DistributedCert {
            certificate: Certificate { public_key: k.public, ..p.distributed_cert.certificate },
            signed_by: Some(parent),
            ..p.distributed_cert
        },
        distributed_private_key: match p.distributed_private_key {
            Some(d) => Some(DistributedPrivateKey { key: k.private, public: k.public, regenerated: true, ..d }),
            None => None,
        },
        regenerated: true,
        key: Some(k),
        ..p
    }
}

pub open spec fn touches(assoc: Option<usize>, a: int) -> bool {
    assoc matches Some(b) && b as int == a
}

/// Pair `i`'s chain of signers reaches a root in fewer than `fuel` steps.
pub open spec fn rooted(pairs: Seq<CertKeyPair>, i: int, fuel: nat) -> bool
    decreases fuel,
{
    fuel > 0 && match pairs[i].signer {
        None => true,
        Some(s) => s < pairs.len() && rooted(pairs, s as int, (fuel - 1) as nat),
    }
}

pub open spec fn signee_in_range(s: ClusterCryptoObjectsInternal, x: Signee) -> bool {
    match x {
        Signee::CertKeyPair(p) => p < s.cert_key_pairs@.len(),
        Signee::Jwt(t) => t < s.jwts@.len(),
    }
}

/// Public key `a` is associated with a pair or with a standalone private key.
pub open spec fn public_key_owned(s: ClusterCryptoObjectsInternal, a: int) -> bool {
    (exists|i: int| 0 <= i < s.cert_key_pairs@.len() && #[trigger] touches(s.cert_key_pairs@[i].associated_public_key, a))
        || (exists|k: int| 0 <= k < s.private_keys@.len() && #[trigger] touches(s.private_keys@[k].associated_public_key, a))
}

/// The inputs on which regeneration must succeed: every chain of signers
/// reaches a root, every certificate is paired, every public key belongs to
/// a pair or a standalone private key, every signer lists the pairs it signs,
/// and every listed signee exists.
pub open spec fn regeneration_owed(s: ClusterCryptoObjectsInternal) -> bool {
    &&& forall|i: int|
        0 <= i < s.cert_key_pairs@.len() ==> #[trigger] rooted(s.cert_key_pairs@, i, s.cert_key_pairs@.len() as nat)
    &&& s.certs@.len() == 0
    &&& forall|a: int| 0 <= a < s.public_keys@.len() ==> #[trigger] public_key_owned(s, a)
    &&& forall|i: int|
        0 <= i < s.cert_key_pairs@.len() ==> ((#[trigger] s.cert_key_pairs@[i]).signer matches Some(g) ==> g
            < s.cert_key_pairs@.len() && s.cert_key_pairs@[g as int].signees@.contains(Signee::CertKeyPair(i as usize)))
    &&& forall|i: int, x: Signee|
        0 <= i < s.cert_key_pairs@.len() && #[trigger] s.cert_key_pairs@[i].signees@.contains(x) ==> signee_in_range(s, x)
    &&& forall|k: int, x: Signee|
        0 <= k < s.private_keys@.len() && #[trigger] s.private_keys@[k].signees@.contains(x) ==> signee_in_range(s, x)
}

/// What regeneration leaves as it was in a pair: its links, the identity,
/// names, encoding and sites of its certificate, and whether it has a private
/// key, with that key's sites and links.
pub open spec fn same_links(p: CertKeyPair, q: CertKeyPair) -> bool {
    &&& p.signer == q.signer
    &&& p.signees == q.signees
    &&& p.associated_public_key == q.associated_public_key
    &&& p.distributed_cert.locations == q.distributed_cert.locations
    &&& p.distributed_cert.certificate.content == q.distributed_cert.certificate.content
    &&& p.distributed_cert.certificate.subject == q.distributed_cert.certificate.subject
    &&& p.distributed_cert.certificate.issuer == q.distributed_cert.certificate.issuer
    &&& p.distributed_cert.certificate.der == q.distributed_cert.certificate.der
    &&& (p.distributed_private_key is Some <==> q.distributed_private_key is Some)
    &&& (p.distributed_private_key matches Some(d) ==> d == (DistributedPrivateKey {
        key: d.key,
        public: d.public,
        regenerated: d.regenerated,
        ..q.distributed_private_key->0
    }))
}

impl ClusterCryptoObjectsInternal {
    fn mark_public_key(&mut self, a: usize, public: u64)
        requires
            a < old(self).public_keys@.len(),
        ensures
            final(self).public_keys@ == old(self).public_keys@.update(
                a as int,
                DistributedPublicKey { key: public, regenerated: true, ..old(self).public_keys@[a as int] },
            ),
            final(self).private_keys@ == old(self).private_keys@,
            final(self).cert_key_pairs@ == old(self).cert_key_pairs@,
            final(self).jwts@ == old(self).jwts@,
            final(self).certs@ == old(self).certs@,
    {
        let mut pk = self.public_keys.remove(a);
        pk.key = public;
        pk.regenerated = true;
        self.public_keys.insert(a, pk);
    }

    fn regenerate_pair(&mut self, i: usize, pool: &mut RsaKeyPool)
        requires
            i < old(self).cert_key_pairs@.len(),
            old(pool).keys@.len() > 0,
            old(self).cert_key_pairs@[i as int].signer matches Some(s) ==> s < old(self).cert_key_pairs@.len()
                && old(self).cert_key_pairs@[s as int].key is Some,
            old(self).cert_key_pairs@[i as int].associated_public_key matches Some(a) ==> a
                < old(self).public_keys@.len(),
        ensures
            final(pool).keys@ == old(pool).keys@.drop_last(),
            final(self).cert_key_pairs@ == old(self).cert_key_pairs@.update(
                i as int,
                reissued_pair(
                    old(self).cert_key_pairs@[i as int],
                    old(pool).keys@.last(),
                    match old(self).cert_key_pairs@[i as int].signer {
                        None => old(pool).keys@.last().private,
                        Some(s) => old(self).cert_key_pairs@[s as int].key->0.private,
                    },
                ),
            ),
            final(self).public_keys@.len() == old(self).public_keys@.len(),
            forall|a: int|
                0 <= a < old(self).public_keys@.len() ==> {
                    let q = #[trigger] final(self).public_keys@[a];
                    &&& q.locations == old(self).public_keys@[a].locations
                    &&& (old(self).public_keys@[a].regenerated || touches(old(self).cert_key_pairs@[i as int].associated_public_key, a)) ==> q.regenerated
                },
            final(self).private_keys@ == old(self).private_keys@,
            final(self).jwts@ == old(self).jwts@,
            final(self).certs@ == old(self).certs@,
    {
        let k = pool.take_key();
        let parent = match self.cert_key_pairs[i].signer {
            None => k.private,
            Some(s) => self.cert_key_pairs[s].key.unwrap().private,
        };
        let p = self.cert_key_pairs.remove(i);
        let ghost assoc = p.associated_public_key;
        assert(assoc == old(self).cert_key_pairs@[i as int].associated_public_key);
        let ghost keys_before = self.public_keys@;
        let CertKeyPair {
            distributed_cert,
            distributed_private_key,
            associated_public_key,
            signer,
            signees,
            regenerated: _,
            key: _,
        } = p;
        let DistributedCert { certificate, locations, signed_by: _ } = distributed_cert;
        let Certificate { content, subject, issuer, public_key: _, der } = certificate;
        let cert = DistributedCert {
            certificate: Certificate { content, subject, issuer, public_key: k.public, der },
            locations,
            signed_by: Some(parent),
        };
        let private_key = match distributed_private_key {
            Some(d) => {
                let DistributedPrivateKey {
                    key: _,
                    public: _,
                    locations,
                    signees,
                    associated_public_key,
                    regenerated: _,
                } = d;
                Some(
                    DistributedPrivateKey {
                        key: k.private,
                        public: k.public,
                        locations,
                        signees,
                        associated_public_key,
                        regenerated: true,
                    },
                )
            },
            None => None,
        };
        self.cert_key_pairs.insert(
            i,
            CertKeyPair {
                distributed_cert: cert,
                distributed_private_key: private_key,
                associated_public_key,
                signer,
                signees,
                regenerated: true,
                key: Some(k),
            },
        );
        if let Some(a) = associated_public_key {
            self.mark_public_key(a, k.public);
            assert(self.public_keys@[a as int].regenerated);
        }
        assert forall|a: int| 0 <= a < keys_before.len() implies {
            let q = #[trigger] self.public_keys@[a];
            &&& q.locations == keys_before[a].locations
            &&& (keys_before[a].regenerated || touches(assoc, a)) ==> q.regenerated
        } by {
            match assoc {
                Some(b) => {
                    if a != b as int {
                        assert(self.public_keys@[a] == keys_before[a]);
                    }
                },
                None => {
                    assert(self.public_keys@ == keys_before);
                },
            }
        }
    }

    fn regenerate_private_key(&mut self, k: usize, pool: &mut RsaKeyPool)
        requires
            k < old(self).private_keys@.len(),
            old(pool).keys@.len() > 0,
            old(self).private_keys@[k as int].associated_public_key matches Some(a) ==> a
                < old(self).public_keys@.len(),
        ensures
            final(pool).keys@ == old(pool).keys@.drop_last(),
            final(self).private_keys@ == old(self).private_keys@.update(
                k as int,
                DistributedPrivateKey {
                    key: old(pool).keys@.last().private,
                    public: old(pool).keys@.last().public,
                    regenerated: true,
                    ..old(self).private_keys@[k as int]
                },
            ),
            final(self).public_keys@.len() == old(self).public_keys@.len(),
            forall|a: int|
                0 <= a < old(self).public_keys@.len() ==> {
                    let q = #[trigger] final(self).public_keys@[a];
                    &&& q.locations == old(self).public_keys@[a].locations
                    &&& (old(self).public_keys@[a].regenerated || touches(old(self).private_keys@[k as int].associated_public_key, a)) ==> q.regenerated
                },
            final(self).cert_key_pairs@ == old(self).cert_key_pairs@,
            final(self).jwts@ == old(self).jwts@,
            final(self).certs@ == old(self).certs@,
    {
        let key = pool.take_key();
        let mut d = self.private_keys.remove(k);
        let assoc = d.associated_public_key;
        let ghost keys_before = self.public_keys@;
        d.key = key.private;
        d.public = key.public;
        d.regenerated = true;
        self.private_keys.insert(k, d);
        if let Some(a) = assoc {
            self.mark_public_key(a, key.public);
            assert(self.public_keys@[a as int].regenerated);
        }
        assert forall|a: int| 0 <= a < keys_before.len() implies {
            let q = #[trigger] self.public_keys@[a];
            &&& q.locations == keys_before[a].locations
            &&& (keys_before[a].regenerated || touches(assoc, a)) ==> q.regenerated
        } by {
            match assoc {
                Some(b) => {
                    if a != b as int {
                        assert(self.public_keys@[a] == keys_before[a]);
                    }
                },
                None => {
                    assert(self.public_keys@ == keys_before);
                },
            }
        }
    }

    fn resign_jwt(&mut self, t: usize, key: u64)
        requires
            t < old(self).jwts@.len(),
        ensures
            final(self).jwts@ == old(self).jwts@.update(
                t as int,
                DistributedJwt { signed_by: Some(key), regenerated: true, ..old(self).jwts@[t as int] },
            ),
            final(self).cert_key_pairs@ == old(self).cert_key_pairs@,
            final(self).private_keys@ == old(self).private_keys@,
            final(self).public_keys@ == old(self).public_keys@,
            final(self).certs@ == old(self).certs@,
    {
        let mut j = self.jwts.remove(t);
        j.signed_by = Some(key);
        j.regenerated = true;
        self.jwts.insert(t, j);
    }

    /// Re-issues every artifact with fresh keys from the pool, signers before
    /// what they sign: root pairs first, then pairs whose signer is done, then
    /// standalone private keys, then tokens, each re-signed by its signer's new
    /// key. Then checks the result.
    pub fn regenerate_crypto(&mut self, pool: &mut RsaKeyPool) -> (r: Result<(), RegenerationError>)
        requires
            links_valid(*old(self)),
            forall|i: int| 0 <= i < old(self).cert_key_pairs@.len() ==> !(#[trigger] old(self).cert_key_pairs@[i]).regenerated,
            forall|k: int| 0 <= k < old(self).private_keys@.len() ==> !(#[trigger] old(self).private_keys@[k]).regenerated,
            old(pool).keys@.len() >= old(self).cert_key_pairs@.len() + old(self).private_keys@.len(),
        ensures
            final(self).cert_key_pairs@.len() == old(self).cert_key_pairs@.len(),
            forall|i: int|
                0 <= i < old(self).cert_key_pairs@.len() ==> same_links(
                    #[trigger] final(self).cert_key_pairs@[i],
                    old(self).cert_key_pairs@[i],
                ),
            final(self).jwts@.len() == old(self).jwts@.len(),
            forall|t: int|
                0 <= t < old(self).jwts@.len() ==> #[trigger] final(self).jwts@[t] == (DistributedJwt {
                    signed_by: final(self).jwts@[t].signed_by,
                    regenerated: final(self).jwts@[t].regenerated,
                    ..old(self).jwts@[t]
                }),
            final(self).private_keys@.len() == old(self).private_keys@.len(),
            forall|k: int|
                0 <= k < old(self).private_keys@.len() ==> #[trigger] final(self).private_keys@[k] == (DistributedPrivateKey {
                    key: final(self).private_keys@[k].key,
                    public: final(self).private_keys@[k].public,
                    regenerated: final(self).private_keys@[k].regenerated,
                    ..old(self).private_keys@[k]
                }),
            forall|k: int|
                0 <= k < old(self).private_keys@.len() && (#[trigger] final(self).private_keys@[k]).regenerated
                    ==> old(pool).keys@.contains(RsaKey { private: final(self).private_keys@[k].key, public: final(self).private_keys@[k].public }),
            forall|i: int|
                0 <= i < old(self).cert_key_pairs@.len() && (#[trigger] final(self).cert_key_pairs@[i]).regenerated
                    ==> old(pool).keys@.contains(final(self).cert_key_pairs@[i].key->0),
            final(pool).keys@ == old(pool).keys@.subrange(0, final(pool).keys@.len() as int),
            r is Ok ==> final(pool).keys@.len() == old(pool).keys@.len() - old(self).cert_key_pairs@.len()
                - old(self).private_keys@.len(),
            r is Ok <==> regeneration_complete(*final(self)),
            regeneration_owed(*old(self)) ==> r is Ok,
            r matches Err(RegenerationError::Unreachable(i)) ==> i < old(self).cert_key_pairs@.len()
                && !rooted(old(self).cert_key_pairs@, i as int, old(self).cert_key_pairs@.len() as nat),
            r is Ok ==> forall|i: int|
                0 <= i < final(self).cert_key_pairs@.len() ==> pair_reissued(final(self).cert_key_pairs@, i),
            r is Ok ==> forall|t: int|
                0 <= t < final(self).jwts@.len() ==> (#[trigger] final(self).jwts@[t]).signed_by == Some(
                    jwt_signing_key(*final(self), t),
                ),
    {
        let ghost init = old(pool).keys@.len();
        let n = self.cert_key_pairs.len();
        let ghost mut done: Set<int> = Set::empty();
        let mut pass: usize = 0;
        while pass < n
            invariant
                n == self.cert_key_pairs@.len(),
                n == old(self).cert_key_pairs@.len(),
                links_valid(*old(self)),
                init == old(pool).keys@.len(),
                init >= n + old(self).private_keys@.len(),
                forall|j: int| 0 <= j < n ==> same_links(#[trigger] self.cert_key_pairs@[j], old(self).cert_key_pairs@[j]),
                forall|j: int| 0 <= j < n ==> (#[trigger] self.cert_key_pairs@[j]).regenerated ==> pair_reissued(self.cert_key_pairs@, j),
                forall|j: int| 0 <= j < n ==> ((#[trigger] self.cert_key_pairs@[j]).regenerated <==> done.contains(j)),
                done.subset_of(set_int_range(0, n as int)),
                done.finite(),
                pool.keys@.len() + done.len() == init,
                pool.keys@ == old(pool).keys@.subrange(0, pool.keys@.len() as int),
                pool.keys@.len() <= old(pool).keys@.len(),
                forall|j: int| 0 <= j < n && (#[trigger] self.cert_key_pairs@[j]).regenerated ==> old(pool).keys@.contains(self.cert_key_pairs@[j].key->0),
                self.private_keys@ == old(self).private_keys@,
                self.jwts@ == old(self).jwts@,
                self.certs@ == old(self).certs@,
                self.public_keys@.len() == old(self).public_keys@.len(),
                pass <= n,
                forall|j: int| 0 <= j < n && (#[trigger] self.cert_key_pairs@[j]).regenerated ==> (self.cert_key_pairs@[j].associated_public_key matches Some(a) ==> self.public_keys@[a as int].regenerated),
                forall|j: int| 0 <= j < n && rooted(old(self).cert_key_pairs@, j, pass as nat) ==> (#[trigger] self.cert_key_pairs@[j]).regenerated,
            decreases n - pass,
        {
            let mut i: usize = 0;
            while i < n
                invariant
                    n == self.cert_key_pairs@.len(),
                    n == old(self).cert_key_pairs@.len(),
                    links_valid(*old(self)),
                    init == old(pool).keys@.len(),
                    init >= n + old(self).private_keys@.len(),
                    i <= n,
                    forall|j: int| 0 <= j < n ==> same_links(#[trigger] self.cert_key_pairs@[j], old(self).cert_key_pairs@[j]),
                    forall|j: int| 0 <= j < n ==> (#[trigger] self.cert_key_pairs@[j]).regenerated ==> pair_reissued(self.cert_key_pairs@, j),
                    forall|j: int| 0 <= j < n ==> ((#[trigger] self.cert_key_pairs@[j]).regenerated <==> done.contains(j)),
                    done.subset_of(set_int_range(0, n as int)),
                    done.finite(),
                    pool.keys@.len() + done.len() == init,
                    pool.keys@ == old(pool).keys@.subrange(0, pool.keys@.len() as int),
                pool.keys@.len() <= old(pool).keys@.len(),
                    forall|j: int| 0 <= j < n && (#[trigger] self.cert_key_pairs@[j]).regenerated ==> old(pool).keys@.contains(self.cert_key_pairs@[j].key->0),
                    self.private_keys@ == old(self).private_keys@,
                    self.jwts@ == old(self).jwts@,
                    self.certs@ == old(self).certs@,
                    self.public_keys@.len() == old(self).public_keys@.len(),
                    pass < n,
                    forall|j: int| 0 <= j < n && (#[trigger] self.cert_key_pairs@[j]).regenerated ==> (self.cert_key_pairs@[j].associated_public_key matches Some(a) ==> self.public_keys@[a as int].regenerated),
                    forall|j: int| 0 <= j < n && rooted(old(self).cert_key_pairs@, j, pass as nat) ==> (#[trigger] self.cert_key_pairs@[j]).regenerated,
                    forall|j: int| 0 <= j < i && rooted(old(self).cert_key_pairs@, j, (pass + 1) as nat) ==> (#[trigger] self.cert_key_pairs@[j]).regenerated,
                decreases n - i,
            {
                let ready = match self.cert_key_pairs[i].signer {
                    None => true,
                    Some(s) => self.cert_key_pairs[s].regenerated,
                };
                proof {
                    let o = old(self).cert_key_pairs@;
                    assert(same_links(self.cert_key_pairs@[i as int], o[i as int]));
                    if rooted(o, i as int, (pass + 1) as nat) {
                        match o[i as int].signer {
                            Some(s) => {
                                assert(rooted(o, s as int, pass as nat));
                            },
                            None => {},
                        }
                        assert(ready || self.cert_key_pairs@[i as int].regenerated);
                    }
                }
                if !self.cert_key_pairs[i].regenerated && ready {
                    proof {
                        lemma_int_range(0, n as int);
                        lemma_len_subset(done, set_int_range(0, n as int));
                        assert(!done.contains(i as int));
                        assert(old(self).cert_key_pairs@[i as int].signer == self.cert_key_pairs@[i as int].signer);
                        match self.cert_key_pairs@[i as int].signer {
                            Some(s) => {
                                assert(pair_reissued(self.cert_key_pairs@, s as int));
                            },
                            None => {},
                        }
                        assert(self.cert_key_pairs@[i as int].associated_public_key == old(self).cert_key_pairs@[i as int].associated_public_key);
                        if done.len() == n {
                            assert(done =~= set_int_range(0, n as int)) by {
                                vstd::set_lib::lemma_subset_equality(done, set_int_range(0, n as int));
                            }
                        }
                    }
                    let ghost before = self.cert_key_pairs@;
                    let ghost pk_before = self.public_keys@;
                    let ghost pool_before = pool.keys@;
                    proof {
                        assert forall|j: int| 0 <= j < n && (#[trigger] before[j]).regenerated implies (before[j].associated_public_key matches Some(a) ==> a < pk_before.len()) by {
                            assert(same_links(before[j], old(self).cert_key_pairs@[j]));
                        }
                    }
                    self.regenerate_pair(i, pool);
                    proof {
                        let after = self.cert_key_pairs@;
                        assert forall|j: int| 0 <= j < n && (#[trigger] after[j]).regenerated implies pair_reissued(after, j) by {
                            if j != i as int {
                                assert(after[j] == before[j]);
                                assert(pair_reissued(before, j));
                                match before[j].signer {
                                    Some(s) => {
                                        assert(before[s as int].regenerated);
                                        assert(s as int != i as int);
                                        assert(after[s as int] == before[s as int]);
                                    },
                                    None => {},
                                }
                            }
                        }
                        assert forall|j: int| 0 <= j < n implies same_links(#[trigger] after[j], old(self).cert_key_pairs@[j]) by {
                            if j != i as int {
                                assert(after[j] == before[j]);
                            }
                        }
                        assert(after[i as int].key == Some(pool_before.last()));
                        assert(old(pool).keys@[pool_before.len() - 1] == pool_before.last());
                        assert(old(pool).keys@.contains(pool_before.last()));
                        assert(pool.keys@ =~= old(pool).keys@.subrange(0, pool.keys@.len() as int));
                        assert forall|j: int| 0 <= j < n && (#[trigger] after[j]).regenerated implies old(pool).keys@.contains(after[j].key->0) by {
                            if j != i as int {
                                assert(after[j] == before[j]);
                            }
                        }
                        done = done.insert(i as int);
                        assert forall|j: int| 0 <= j < n implies ((#[trigger] after[j]).regenerated <==> done.contains(j)) by {
                            if j != i as int {
                                assert(after[j] == before[j]);
                            }
                        }
                        assert forall|j: int| 0 <= j < n && (#[trigger] after[j]).regenerated implies (after[j].associated_public_key matches Some(a) ==> self.public_keys@[a as int].regenerated) by {
                            if j != i as int {
                                assert(after[j] == before[j]);
                                match after[j].associated_public_key {
                                    Some(a) => {
                                        assert(before[j].regenerated);
                                    },
                                    None => {},
                                }
                            } else {
                                assert(after[j].associated_public_key == before[j].associated_public_key);
                            }
                        }
                        assert forall|j: int| 0 <= j < n && before[j].regenerated implies (#[trigger] after[j]).regenerated by {
                            if j != i as int {
                                assert(after[j] == before[j]);
                            }
                        }
                    }
                }
                i = i + 1;
            }
            pass = pass + 1;
        }
        let mut i: usize = 0;
        while i < n
            invariant
                n == self.cert_key_pairs@.len(),
                n == old(self).cert_key_pairs@.len(),
                i <= n,
                forall|j: int| 0 <= j < i ==> (#[trigger] self.cert_key_pairs@[j]).regenerated,
                forall|j: int| 0 <= j < n ==> same_links(#[trigger] self.cert_key_pairs@[j], old(self).cert_key_pairs@[j]),
                forall|j: int| 0 <= j < n ==> (#[trigger] self.cert_key_pairs@[j]).regenerated ==> pair_reissued(self.cert_key_pairs@, j),
                forall|j: int| 0 <= j < n && rooted(old(self).cert_key_pairs@, j, n as nat) ==> (#[trigger] self.cert_key_pairs@[j]).regenerated,
                forall|j: int| 0 <= j < n && (#[trigger] self.cert_key_pairs@[j]).regenerated ==> (self.cert_key_pairs@[j].associated_public_key matches Some(a) ==> self.public_keys@[a as int].regenerated),
                self.public_keys@.len() == old(self).public_keys@.len(),
                self.certs@ == old(self).certs@,
                self.private_keys@ == old(self).private_keys@,
                self.jwts@ == old(self).jwts@,
                pool.keys@ == old(pool).keys@.subrange(0, pool.keys@.len() as int),
                pool.keys@.len() <= old(pool).keys@.len(),
                forall|j: int| 0 <= j < n && (#[trigger] self.cert_key_pairs@[j]).regenerated ==> old(pool).keys@.contains(self.cert_key_pairs@[j].key->0),
                pool.keys@.len() + done.len() == init,
                forall|k: int| 0 <= k < old(self).private_keys@.len() ==> !(#[trigger] old(self).private_keys@[k]).regenerated,
                forall|j: int| 0 <= j < n ==> ((#[trigger] self.cert_key_pairs@[j]).regenerated <==> done.contains(j)),
                done.subset_of(set_int_range(0, n as int)),
                done.finite(),
                init == old(pool).keys@.len(),
            decreases n - i,
        {
            if !self.cert_key_pairs[i].regenerated {
                assert(!regeneration_complete(*self));
                return Err(RegenerationError::Unreachable(i));
            }
            i = i + 1;
        }
        proof {
            lemma_int_range(0, n as int);
            lemma_len_subset(done, set_int_range(0, n as int));
            assert forall|j: int| set_int_range(0, n as int).contains(j) implies done.contains(j) by {
                assert(self.cert_key_pairs@[j].regenerated);
            }
            assert(done =~= set_int_range(0, n as int));
        }
        let nk = self.private_keys.len();
        let mut k: usize = 0;
        while k < nk
            invariant
                nk == self.private_keys@.len(),
                nk == old(self).private_keys@.len(),
                k <= nk,
                pool.keys@.len() >= nk - k,
                pool.keys@.len() == old(pool).keys@.len() - n - k,
                links_valid(*old(self)),
                n == self.cert_key_pairs@.len(),
                n == old(self).cert_key_pairs@.len(),
                forall|j: int| 0 <= j < n ==> same_links(#[trigger] self.cert_key_pairs@[j], old(self).cert_key_pairs@[j]),
                forall|j: int| 0 <= j < n ==> (#[trigger] self.cert_key_pairs@[j]).regenerated,
                forall|j: int| 0 <= j < n ==> pair_reissued(self.cert_key_pairs@, j),
                forall|m: int| k <= m < nk ==> self.private_keys@[m] == old(self).private_keys@[m],
                pool.keys@ == old(pool).keys@.subrange(0, pool.keys@.len() as int),
                pool.keys@.len() <= old(pool).keys@.len(),
                forall|j: int| 0 <= j < n && (#[trigger] self.cert_key_pairs@[j]).regenerated ==> old(pool).keys@.contains(self.cert_key_pairs@[j].key->0),
                forall|m: int| 0 <= m < nk ==> #[trigger] self.private_keys@[m] == (DistributedPrivateKey {
                    key: self.private_keys@[m].key,
                    public: self.private_keys@[m].public,
                    regenerated: self.private_keys@[m].regenerated,
                    ..old(self).private_keys@[m]
                }),
                forall|m: int| 0 <= m < nk && (#[trigger] self.private_keys@[m]).regenerated ==> old(pool).keys@.contains(RsaKey { private: self.private_keys@[m].key, public: self.private_keys@[m].public }),
                forall|j: int| 0 <= j < n ==> ((#[trigger] self.cert_key_pairs@[j]).associated_public_key matches Some(a) ==> self.public_keys@[a as int].regenerated),
                forall|m: int| 0 <= m < k ==> ((#[trigger] self.private_keys@[m]).associated_public_key matches Some(a) ==> self.public_keys@[a as int].regenerated),
                forall|m: int| 0 <= m < nk ==> (#[trigger] self.private_keys@[m]).associated_public_key == old(self).private_keys@[m].associated_public_key,
                forall|m: int| 0 <= m < k ==> (#[trigger] self.private_keys@[m]).regenerated,
                forall|m: int| 0 <= m < nk ==> (#[trigger] self.private_keys@[m]).signees == old(self).private_keys@[m].signees,
                self.jwts@ == old(self).jwts@,
                self.certs@ == old(self).certs@,
                self.public_keys@.len() == old(self).public_keys@.len(),
            decreases nk - k,
        {
            assert(self.private_keys@[k as int].associated_public_key == old(self).private_keys@[k as int].associated_public_key);
            let ghost kb = self.private_keys@;
            let ghost pkb = self.public_keys@;
            proof {
                assert forall|j: int| 0 <= j < n implies ((#[trigger] self.cert_key_pairs@[j]).associated_public_key matches Some(a) ==> a < pkb.len()) by {
                    assert(same_links(self.cert_key_pairs@[j], old(self).cert_key_pairs@[j]));
                }
                assert forall|m: int| 0 <= m < k implies ((#[trigger] kb[m]).associated_public_key matches Some(a) ==> a < pkb.len()) by {
                    assert(kb[m].associated_public_key == old(self).private_keys@[m].associated_public_key);
                }
            }
            let ghost pool_before = pool.keys@;
            self.regenerate_private_key(k, pool);
            proof {
                assert(old(pool).keys@[pool_before.len() - 1] == pool_before.last());
                assert(pool.keys@ =~= old(pool).keys@.subrange(0, pool.keys@.len() as int));
                assert forall|m: int| 0 <= m < nk && (#[trigger] self.private_keys@[m]).regenerated implies old(pool).keys@.contains(RsaKey { private: self.private_keys@[m].key, public: self.private_keys@[m].public }) by {
                    if m != k as int {
                        assert(self.private_keys@[m] == kb[m]);
                    } else {
                        assert(RsaKey { private: self.private_keys@[m].key, public: self.private_keys@[m].public } == pool_before.last());
                    }
                }
                assert forall|j: int| 0 <= j < n implies ((#[trigger] self.cert_key_pairs@[j]).associated_public_key matches Some(a) ==> self.public_keys@[a as int].regenerated) by {
                    match self.cert_key_pairs@[j].associated_public_key {
                        Some(a) => {
                            assert(pkb[a as int].regenerated);
                        },
                        None => {},
                    }
                }
                assert forall|m: int| 0 <= m < k + 1 implies ((#[trigger] self.private_keys@[m]).associated_public_key matches Some(a) ==> self.public_keys@[a as int].regenerated) by {
                    if m < k {
                        assert(self.private_keys@[m] == kb[m]);
                        match kb[m].associated_public_key {
                            Some(a) => {
                                assert(pkb[a as int].regenerated);
                            },
                            None => {},
                        }
                    }
                }
            }
            k = k + 1;
        }
        let nt = self.jwts.len();
        let mut t: usize = 0;
        while t < nt
            invariant
                nt == self.jwts@.len(),
                nt == old(self).jwts@.len(),
                t <= nt,
                links_valid(*old(self)),
                n == self.cert_key_pairs@.len(),
                n == old(self).cert_key_pairs@.len(),
                nk == self.private_keys@.len(),
                nk == old(self).private_keys@.len(),
                forall|j: int| 0 <= j < n ==> same_links(#[trigger] self.cert_key_pairs@[j], old(self).cert_key_pairs@[j]),
                forall|j: int| 0 <= j < n ==> (#[trigger] self.cert_key_pairs@[j]).regenerated,
                forall|j: int| 0 <= j < n ==> pair_reissued(self.cert_key_pairs@, j),
                forall|m: int| 0 <= m < nk ==> (#[trigger] self.private_keys@[m]).regenerated,
                forall|m: int| 0 <= m < nk ==> (#[trigger] self.private_keys@[m]).signees == old(self).private_keys@[m].signees,
                forall|m: int| 0 <= m < nt ==> (#[trigger] self.jwts@[m]).signer == old(self).jwts@[m].signer,
                forall|m: int| 0 <= m < nt ==> #[trigger] self.jwts@[m] == (DistributedJwt {
                    signed_by: self.jwts@[m].signed_by,
                    regenerated: self.jwts@[m].regenerated,
                    ..old(self).jwts@[m]
                }),
                pool.keys@ == old(pool).keys@.subrange(0, pool.keys@.len() as int),
                pool.keys@.len() <= old(pool).keys@.len(),
                forall|j: int| 0 <= j < n && (#[trigger] self.cert_key_pairs@[j]).regenerated ==> old(pool).keys@.contains(self.cert_key_pairs@[j].key->0),
                forall|m: int| 0 <= m < nk ==> #[trigger] self.private_keys@[m] == (DistributedPrivateKey {
                    key: self.private_keys@[m].key,
                    public: self.private_keys@[m].public,
                    regenerated: self.private_keys@[m].regenerated,
                    ..old(self).private_keys@[m]
                }),
                forall|m: int| 0 <= m < nk && (#[trigger] self.private_keys@[m]).regenerated ==> old(pool).keys@.contains(RsaKey { private: self.private_keys@[m].key, public: self.private_keys@[m].public }),
                forall|m: int| 0 <= m < t ==> (#[trigger] self.jwts@[m]).regenerated,
                forall|m: int| 0 <= m < t ==> (#[trigger] self.jwts@[m]).signed_by == Some(jwt_signing_key(*self, m)),
                forall|j: int| 0 <= j < n ==> ((#[trigger] self.cert_key_pairs@[j]).associated_public_key matches Some(a) ==> self.public_keys@[a as int].regenerated),
                forall|m: int| 0 <= m < nk ==> ((#[trigger] self.private_keys@[m]).associated_public_key matches Some(a) ==> self.public_keys@[a as int].regenerated),
                forall|m: int| 0 <= m < nk ==> (#[trigger] self.private_keys@[m]).associated_public_key == old(self).private_keys@[m].associated_public_key,
                self.public_keys@.len() == old(self).public_keys@.len(),
                self.certs@ == old(self).certs@,
                pool.keys@.len() == old(pool).keys@.len() - n - nk,
            decreases nt - t,
        {
            assert(self.jwts@[t as int].signer == old(self).jwts@[t as int].signer);
            assert(match old(self).jwts@[t as int].signer {
                JwtSigner::Unknown => false,
                JwtSigner::PrivateKey(k) => k < old(self).private_keys@.len(),
                JwtSigner::CertKeyPair(p) => p < old(self).cert_key_pairs@.len(),
            });
            let key = match self.jwts[t].signer {
                JwtSigner::PrivateKey(k) => self.private_keys[k].key,
                JwtSigner::CertKeyPair(p) => {
                    assert(pair_reissued(self.cert_key_pairs@, p as int));
                    self.cert_key_pairs[p].key.unwrap().private
                },
                JwtSigner::Unknown => {
                    return Err(RegenerationError::NotRegenerated(Signee::Jwt(t)));
                },
            };
            let ghost before = *self;
            self.resign_jwt(t, key);
            assert forall|m: int| 0 <= m < t + 1 implies (#[trigger] self.jwts@[m]).signed_by == Some(jwt_signing_key(*self, m)) by {
                if m != t as int {
                    assert(self.jwts@[m] == before.jwts@[m]);
                    assert(jwt_signing_key(*self, m) == jwt_signing_key(before, m));
                }
            }
            t = t + 1;
        }
        proof {
            if regeneration_owed(*old(self)) {
                let o = *old(self);
                assert forall|a: int| 0 <= a < self.public_keys@.len() implies (#[trigger] self.public_keys@[a]).regenerated by {
                    assert(public_key_owned(o, a));
                    if exists|i: int| 0 <= i < o.cert_key_pairs@.len() && #[trigger] touches(o.cert_key_pairs@[i].associated_public_key, a) {
                        let i = choose|i: int| 0 <= i < o.cert_key_pairs@.len() && #[trigger] touches(o.cert_key_pairs@[i].associated_public_key, a);
                        assert(same_links(self.cert_key_pairs@[i], o.cert_key_pairs@[i]));
                    } else {
                        let k = choose|k: int| 0 <= k < o.private_keys@.len() && #[trigger] touches(o.private_keys@[k].associated_public_key, a);
                        assert(self.private_keys@[k].associated_public_key == o.private_keys@[k].associated_public_key);
                    }
                }
                assert forall|i: int| 0 <= i < n implies ((#[trigger] self.cert_key_pairs@[i]).signer matches Some(g) ==> {
                    &&& g < n
                    &&& self.cert_key_pairs@[g as int].regenerated
                    &&& self.cert_key_pairs@[g as int].signees@.len() > 0
                    &&& self.cert_key_pairs@[g as int].signees@.contains(Signee::CertKeyPair(i as usize))
                }) by {
                    assert(same_links(self.cert_key_pairs@[i], o.cert_key_pairs@[i]));
                    assert(rooted(o.cert_key_pairs@, i, n as nat));
                    match self.cert_key_pairs@[i].signer {
                        Some(g) => {
                            assert(same_links(self.cert_key_pairs@[g as int], o.cert_key_pairs@[g as int]));
                            assert(o.cert_key_pairs@[g as int].signees@.contains(Signee::CertKeyPair(i as usize)));
                        },
                        None => {},
                    }
                }
                assert forall|i: int, x: Signee| 0 <= i < n && #[trigger] self.cert_key_pairs@[i].signees@.contains(x) implies signee_regenerated(*self, x) by {
                    assert(same_links(self.cert_key_pairs@[i], o.cert_key_pairs@[i]));
                    assert(o.cert_key_pairs@[i].signees@.contains(x));
                }
                assert forall|k: int, x: Signee| 0 <= k < nk && #[trigger] self.private_keys@[k].signees@.contains(x) implies signee_regenerated(*self, x) by {
                    assert(o.private_keys@[k].signees@.contains(x));
                }
                assert(regeneration_complete(*self));
            }
        }
        self.assert_regeneration()
    }
}

} // verus!
