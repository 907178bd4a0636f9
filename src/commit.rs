use vstd::prelude::*;
use crate::cluster_crypto::ClusterCryptoObjectsInternal;
use crate::locations::Locations;
use crate::objects::{CertKeyPair, DistributedJwt, DistributedPrivateKey, DistributedPublicKey};

verus! {

/// An artifact to serialise: a pair's certificate, a pair's private key, a
/// token, a standalone private key or a public key, by index.
#[derive(Clone, Copy, PartialEq, Eq, Structural, Debug)]
pub enum Artifact {
    Certificate(usize),
    PairPrivateKey(usize),
    Jwt(usize),
    PrivateKey(usize),
    PublicKey(usize),
}

/// One write for the persistence layer: the artifact's current form, at one site.
pub struct Write {
    pub artifact: Artifact,
    pub location: String,
}

/// One write of `a` at each of `locs`' sites, in their order.
pub open spec fn site_writes(a: Artifact, locs: Locations) -> Seq<Write> {
    locs.sites@.map_values(|l: String| Write { artifact: a, location: l })
}

/// The writes for the first `n` pairs: each pair's certificate at its sites,
/// then its private key, if any, at the key's sites.
pub open spec fn pair_writes(pairs: Seq<CertKeyPair>, n: int) -> Seq<Write>
    decreases n,
{
    if n <= 0 {
        Seq::empty()
    } else {
        let p = pairs[n - 1];
        let cert = pair_writes(pairs, n - 1) + site_writes(Artifact::Certificate((n - 1) as usize), p.distributed_cert.locations);
        match p.distributed_private_key {
            Some(d) => cert + site_writes(Artifact::PairPrivateKey((n - 1) as usize), d.locations),
            None => cert,
        }
    }
}

pub open spec fn jwt_writes(jwts: Seq<DistributedJwt>, n: int) -> Seq<Write>
    decreases n,
{
    if n <= 0 {
        Seq::empty()
    } else {
        jwt_writes(jwts, n - 1) + site_writes(Artifact::Jwt((n - 1) as usize), jwts[n - 1].locations)
    }
}

pub open spec fn private_key_writes(keys: Seq<DistributedPrivateKey>, n: int) -> Seq<Write>
    decreases n,
{
    if n <= 0 {
        Seq::empty()
    } else {
        private_key_writes(keys, n - 1) + site_writes(Artifact::PrivateKey((n - 1) as usize), keys[n - 1].locations)
    }
}

pub open spec fn public_key_writes(keys: Seq<DistributedPublicKey>, n: int) -> Seq<Write>
    decreases n,
{
    if n <= 0 {
        Seq::empty()
    } else {
        public_key_writes(keys, n - 1) + site_writes(Artifact::PublicKey((n - 1) as usize), keys[n - 1].locations)
    }
}

/// Every write needed to persist the graph, record by record: pairs, tokens,
/// standalone private keys, public keys.
pub open spec fn commit_writes(s: ClusterCryptoObjectsInternal) -> Seq<Write> {
    pair_writes(s.cert_key_pairs@, s.cert_key_pairs@.len() as int) + jwt_writes(s.jwts@, s.jwts@.len() as int)
        + private_key_writes(s.private_keys@, s.private_keys@.len() as int) + public_key_writes(
        s.public_keys@,
        s.public_keys@.len() as int,
    )
}

fn push_sites(out: &mut Vec<Write>, a: Artifact, locs: &Locations)
    ensures
        final(out)@ == old(out)@ + site_writes(a, *locs),
{
    let mut i: usize = 0;
    while i < locs.sites.len()
        invariant
            i <= locs.sites@.len(),
            out@ == old(out)@ + site_writes(a, *locs).subrange(0, i as int),
        decreases locs.sites@.len() - i,
    {
        let location = locs.sites[i].clone();
        out.push(Write { artifact: a, location });
        assert(out@ =~= old(out)@ + site_writes(a, *locs).subrange(0, i + 1));
        i = i + 1;
    }
    assert(site_writes(a, *locs).subrange(0, i as int) =~= site_writes(a, *locs));
}

impl ClusterCryptoObjectsInternal {
    /// Every write needed to persist the graph: each artifact once at each of
    /// its sites, in the order of its sites.
    pub fn commit_to_etcd_and_disk(&self) -> (r: Vec<Write>)
        ensures
            r@ == commit_writes(*self),
    {
        let mut out: Vec<Write> = Vec::new();
        let n = self.cert_key_pairs.len();
        let mut i: usize = 0;
        while i < n
            invariant
                n == self.cert_key_pairs@.len(),
                i <= n,
                out@ == pair_writes(self.cert_key_pairs@, i as int),
            decreases n - i,
        {
            push_sites(&mut out, Artifact::Certificate(i), &self.cert_key_pairs[i].distributed_cert.locations);
            if let Some(d) = &self.cert_key_pairs[i].distributed_private_key {
                push_sites(&mut out, Artifact::PairPrivateKey(i), &d.locations);
            }
            i = i + 1;
        }
        let ghost pw = out@;
        let nt = self.jwts.len();
        let mut t: usize = 0;
        while t < nt
            invariant
                nt == self.jwts@.len(),
                t <= nt,
                out@ == pw + jwt_writes(self.jwts@, t as int),
            decreases nt - t,
        {
            push_sites(&mut out, Artifact::Jwt(t), &self.jwts[t].locations);
            assert(out@ =~= pw + jwt_writes(self.jwts@, t + 1));
            t = t + 1;
        }
        let ghost jw = out@;
        let nk = self.private_keys.len();
        let mut k: usize = 0;
        while k < nk
            invariant
                nk == self.private_keys@.len(),
                k <= nk,
                out@ == jw + private_key_writes(self.private_keys@, k as int),
            decreases nk - k,
        {
            push_sites(&mut out, Artifact::PrivateKey(k), &self.private_keys[k].locations);
            assert(out@ =~= jw + private_key_writes(self.private_keys@, k + 1));
            k = k + 1;
        }
        let ghost kw = out@;
        let np = self.public_keys.len();
        let mut k: usize = 0;
        while k < np
            invariant
                np == self.public_keys@.len(),
                k <= np,
                out@ == kw + public_key_writes(self.public_keys@, k as int),
            decreases np - k,
        {
            push_sites(&mut out, Artifact::PublicKey(k), &self.public_keys[k].locations);
            assert(out@ =~= kw + public_key_writes(self.public_keys@, k + 1));
            k = k + 1;
        }
        assert(out@ =~= commit_writes(*self));
        out
    }

    /// The pairs with no signer, in order: the roots of the signing forest.
    pub fn roots(&self) -> (r: Vec<usize>)
        ensures
            forall|i: usize| r@.contains(i) <==> (i < self.cert_key_pairs@.len() && self.cert_key_pairs@[i as int].signer is None),
    {
        let mut r: Vec<usize> = Vec::new();
        let mut i: usize = 0;
        while i < self.cert_key_pairs.len()
            invariant
                i <= self.cert_key_pairs@.len(),
                forall|j: usize| r@.contains(j) <==> (j < i && self.cert_key_pairs@[j as int].signer is None),
            decreases self.cert_key_pairs@.len() - i,
        {
            if self.cert_key_pairs[i].signer.is_none() {
                let ghost before = r@;
                assert(forall|j: usize| before.contains(j) <==> (j < i && self.cert_key_pairs@[j as int].signer is None));
                r.push(i);
                assert forall|j: usize| r@.contains(j) <==> (j < i + 1 && self.cert_key_pairs@[j as int].signer is None) by {
                    if r@.contains(j) {
                        let w = choose|w: int| 0 <= w < r@.len() && r@[w] == j;
                        if w < before.len() {
                            assert(before[w] == j);
                            assert(before.contains(j));
                        } else {
                            assert(j == i);
                        }
                    }
                    if j == i {
                        assert(r@[before.len() as int] == j);
                    } else if j < i && self.cert_key_pairs@[j as int].signer is None {
                        assert(before.contains(j));
                        let w = choose|w: int| 0 <= w < before.len() && before[w] == j;
                        assert(r@[w] == j);
                    }
                }
            }
            i = i + 1;
        }
        r
    }
}

} // verus!
