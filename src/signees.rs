use vstd::prelude::*;
use crate::cluster_crypto::ClusterCryptoObjectsInternal;
use crate::objects::{CertKeyPair, DistributedJwt, DistributedPrivateKey, JwtSigner, Signee};

verus! {

/// The signer of pair `p` holds the same certificate content as pair `c`.
pub open spec fn signs_pair(pairs: Seq<CertKeyPair>, c: int, p: int) -> bool {
    pairs[p].signer matches Some(s) && s < pairs.len()
        && pairs[s as int].distributed_cert.certificate.content
        == pairs[c].distributed_cert.certificate.content
}

/// `x` is signed by pair `c`.
pub open spec fn pair_signee(pairs: Seq<CertKeyPair>, jwts: Seq<DistributedJwt>, c: int, x: Signee) -> bool {
    match x {
        Signee::CertKeyPair(p) => p < pairs.len() && signs_pair(pairs, c, p as int),
        Signee::Jwt(t) => t < jwts.len() && jwts[t as int].signer == JwtSigner::CertKeyPair(c as usize),
    }
}

/// `x` is signed by standalone private key `k`.
pub open spec fn key_signee(jwts: Seq<DistributedJwt>, k: int, x: Signee) -> bool {
    x matches Signee::Jwt(t) && t < jwts.len() && jwts[t as int].signer == JwtSigner::PrivateKey(k as usize)
}

proof fn lemma_push_contains(s: Seq<Signee>, v: Signee)
    ensures
        forall|x: Signee| #[trigger] s.push(v).contains(x) <==> (s.contains(x) || x == v),
{
    assert forall|x: Signee| #[trigger] s.push(v).contains(x) <==> (s.contains(x) || x == v) by {
        if s.contains(x) {
            let i = choose|i: int| 0 <= i < s.len() && s[i] == x;
            assert(s.push(v)[i] == x);
        }
        if x == v {
            assert(s.push(v)[s.len() as int] == v);
        }
        if s.push(v).contains(x) {
            let i = choose|i: int| 0 <= i < s.len() + 1 && s.push(v)[i] == x;
            if i < s.len() {
                assert(s[i] == x);
            }
        }
    }
}

impl ClusterCryptoObjectsInternal {
    fn signees_of_pair(&self, c: usize) -> (r: Vec<Signee>)
        requires
            c < self.cert_key_pairs@.len(),
        ensures
            r@.no_duplicates(),
            forall|x: Signee| r@.contains(x) <==> pair_signee(self.cert_key_pairs@, self.jwts@, c as int, x),
    {
        let n = self.cert_key_pairs.len();
        let content = self.cert_key_pairs[c].distributed_cert.certificate.content;
        let mut r: Vec<Signee> = Vec::new();
        let mut p: usize = 0;
        while p < n
            invariant
                n == self.cert_key_pairs@.len(),
                c < n,
                content == self.cert_key_pairs@[c as int].distributed_cert.certificate.content,
                p <= n,
                r@.no_duplicates(),
                forall|x: Signee| r@.contains(x) <==> (x matches Signee::CertKeyPair(q) && q < p
                    && signs_pair(self.cert_key_pairs@, c as int, q as int)),
            decreases n - p,
        {
            if let Some(s) = self.cert_key_pairs[p].signer {
                if s < n && self.cert_key_pairs[s].distributed_cert.certificate.content == content {
                    proof {
                        assert(!r@.contains(Signee::CertKeyPair(p)));
                        lemma_push_contains(r@, Signee::CertKeyPair(p));
                    }
                    r.push(Signee::CertKeyPair(p));
                }
            }
            p = p + 1;
        }
        let m = self.jwts.len();
        let mut t: usize = 0;
        while t < m
            invariant
                n == self.cert_key_pairs@.len(),
                m == self.jwts@.len(),
                c < n,
                t <= m,
                r@.no_duplicates(),
                forall|x: Signee| r@.contains(x) <==> (match x {
                    Signee::CertKeyPair(q) => q < n && signs_pair(self.cert_key_pairs@, c as int, q as int),
                    Signee::Jwt(u) => u < t && self.jwts@[u as int].signer == JwtSigner::CertKeyPair(c),
                }),
            decreases m - t,
        {
            if self.jwts[t].signer == JwtSigner::CertKeyPair(c) {
                proof {
                    assert(!r@.contains(Signee::Jwt(t)));
                    lemma_push_contains(r@, Signee::Jwt(t));
                }
                r.push(Signee::Jwt(t));
            }
            t = t + 1;
        }
        r
    }

    fn signees_of_key(&self, k: usize) -> (r: Vec<Signee>)
        ensures
            r@.no_duplicates(),
            forall|x: Signee| r@.contains(x) <==> key_signee(self.jwts@, k as int, x),
    {
        let m = self.jwts.len();
        let mut r: Vec<Signee> = Vec::new();
        let mut t: usize = 0;
        while t < m
            invariant
                m == self.jwts@.len(),
                t <= m,
                r@.no_duplicates(),
                forall|x: Signee| r@.contains(x) <==> (x matches Signee::Jwt(u) && u < t
                    && self.jwts@[u as int].signer == JwtSigner::PrivateKey(k)),
            decreases m - t,
        {
            if self.jwts[t].signer == JwtSigner::PrivateKey(k) {
                proof {
                    assert(!r@.contains(Signee::Jwt(t)));
                    lemma_push_contains(r@, Signee::Jwt(t));
                }
                r.push(Signee::Jwt(t));
            }
            t = t + 1;
        }
        r
    }

    /// Gives every pair and every standalone private key the list of what it
    /// signs: the pairs whose signer holds the same certificate, and the
    /// tokens whose signer it is.
    pub fn fill_signees(&mut self)
        requires
            forall|t: int| 0 <= t < old(self).jwts@.len() ==> (#[trigger] old(self).jwts@[t]).signer != JwtSigner::Unknown,
        ensures
            final(self).cert_key_pairs@.len() == old(self).cert_key_pairs@.len(),
            forall|c: int|
                0 <= c < old(self).cert_key_pairs@.len() ==> {
                    let p = #[trigger] final(self).cert_key_pairs@[c];
                    &&& p == (CertKeyPair { signees: p.signees, ..old(self).cert_key_pairs@[c] })
                    &&& p.signees@.no_duplicates()
                    &&& forall|x: Signee|
                        p.signees@.contains(x) <==> pair_signee(
                            old(self).cert_key_pairs@,
                            old(self).jwts@,
                            c,
                            x,
                        )
                },
            final(self).private_keys@.len() == old(self).private_keys@.len(),
            forall|k: int|
                0 <= k < old(self).private_keys@.len() ==> {
                    let d = #[trigger] final(self).private_keys@[k];
                    &&& d == (DistributedPrivateKey { signees: d.signees, ..old(self).private_keys@[k] })
                    &&& d.signees@.no_duplicates()
                    &&& forall|x: Signee| d.signees@.contains(x) <==> key_signee(old(self).jwts@, k, x)
                },
            final(self).public_keys@ == old(self).public_keys@,
            final(self).certs@ == old(self).certs@,
            final(self).jwts@ == old(self).jwts@,
            final(self).public_to_private@ == old(self).public_to_private@,
    {
        let n = self.cert_key_pairs.len();
        let mut lists: Vec<Vec<Signee>> = Vec::new();
        let mut c: usize = 0;
        while c < n
            invariant
                n == self.cert_key_pairs@.len(),
                *self == *old(self),
                c <= n,
                lists@.len() == c,
                forall|a: int|
                    0 <= a < c ==> (#[trigger] lists@[a])@.no_duplicates() && forall|x: Signee|
                        lists@[a]@.contains(x) <==> pair_signee(self.cert_key_pairs@, self.jwts@, a, x),
            decreases n - c,
        {
            let v = self.signees_of_pair(c);
            lists.push(v);
            c = c + 1;
        }
        let mut c: usize = n;
        while c > 0
            invariant
                c <= n,
                n == old(self).cert_key_pairs@.len(),
                self.cert_key_pairs@.len() == n,
                lists@.len() == c,
                forall|a: int|
                    0 <= a < c ==> (#[trigger] lists@[a])@.no_duplicates() && forall|x: Signee|
                        lists@[a]@.contains(x) <==> pair_signee(old(self).cert_key_pairs@, old(self).jwts@, a, x),
                forall|a: int| 0 <= a < c ==> self.cert_key_pairs@[a] == old(self).cert_key_pairs@[a],
                forall|a: int|
                    c <= a < n ==> {
                        let p = #[trigger] self.cert_key_pairs@[a];
                        &&& p == (CertKeyPair { signees: p.signees, ..old(self).cert_key_pairs@[a] })
                        &&& p.signees@.no_duplicates()
                        &&& forall|x: Signee|
                            p.signees@.contains(x) <==> pair_signee(
                                old(self).cert_key_pairs@,
                                old(self).jwts@,
                                a,
                                x,
                            )
                    },
                self.private_keys@ == old(self).private_keys@,
                self.public_keys@ == old(self).public_keys@,
                self.certs@ == old(self).certs@,
                self.jwts@ == old(self).jwts@,
                self.public_to_private@ == old(self).public_to_private@,
            decreases c,
        {
            c = c - 1;
            let v = lists.pop().unwrap();
            let mut p = self.cert_key_pairs.remove(c);
            p.signees = v;
            self.cert_key_pairs.insert(c, p);
        }
        let nk = self.private_keys.len();
        let mut k: usize = 0;
        while k < nk
            invariant
                nk == old(self).private_keys@.len(),
                self.private_keys@.len() == nk,
                k <= nk,
                forall|a: int| k <= a < nk ==> self.private_keys@[a] == old(self).private_keys@[a],
                forall|a: int|
                    0 <= a < k ==> {
                        let d = #[trigger] self.private_keys@[a];
                        &&& d == (DistributedPrivateKey { signees: d.signees, ..old(self).private_keys@[a] })
                        &&& d.signees@.no_duplicates()
                        &&& forall|x: Signee| d.signees@.contains(x) <==> key_signee(old(self).jwts@, a, x)
                    },
                self.cert_key_pairs@.len() == old(self).cert_key_pairs@.len(),
                forall|a: int|
                    0 <= a < old(self).cert_key_pairs@.len() ==> {
                        let p = #[trigger] self.cert_key_pairs@[a];
                        &&& p == (CertKeyPair { signees: p.signees, ..old(self).cert_key_pairs@[a] })
                        &&& p.signees@.no_duplicates()
                        &&& forall|x: Signee|
                            p.signees@.contains(x) <==> pair_signee(
                                old(self).cert_key_pairs@,
                                old(self).jwts@,
                                a,
                                x,
                            )
                    },
                self.public_keys@ == old(self).public_keys@,
                self.certs@ == old(self).certs@,
                self.jwts@ == old(self).jwts@,
                self.public_to_private@ == old(self).public_to_private@,
            decreases nk - k,
        {
            let v = self.signees_of_key(k);
            let mut d = self.private_keys.remove(k);
            d.signees = v;
            self.private_keys.insert(k, d);
            k = k + 1;
        }
    }
}

} // verus!
