use vstd::prelude::*;
use crate::cluster_crypto::ClusterCryptoObjectsInternal;
use crate::objects::{CertKeyPair, DistributedJwt, JwtSigner};

verus! {

/// No standalone private key and no cert-key pair's private key verifies the
/// token at this index.
#[derive(Clone, Copy, PartialEq, Eq, Structural, Debug)]
pub enum JwtSignerError {
    UnknownSigner(usize),
}

/// Pair `p` has a private key and it verifies the token of row `row`.
pub open spec fn pair_verifies(pairs: Seq<CertKeyPair>, row: Seq<bool>, p: int) -> bool {
    pairs[p].distributed_private_key is Some && row[p]
}

/// Some key verifies token `t`: `by_key[t][k]` answers for standalone key `k`,
/// `by_pair[t][p]` for the private key of pair `p`.
pub open spec fn jwt_signable(
    nkeys: int,
    pairs: Seq<CertKeyPair>,
    by_key: Seq<Vec<bool>>,
    by_pair: Seq<Vec<bool>>,
    t: int,
) -> bool {
    (exists|k: int| 0 <= k < nkeys && by_key[t]@[k]) || (exists|p: int|
        0 <= p < pairs.len() && pair_verifies(pairs, by_pair[t]@, p))
}

/// `s` is a signer that verifies token `t`: a standalone key that verifies
/// it, or, when none does, the first pair whose private key verifies it.
pub open spec fn verified_signer(
    nkeys: int,
    pairs: Seq<CertKeyPair>,
    by_key: Seq<Vec<bool>>,
    by_pair: Seq<Vec<bool>>,
    t: int,
    s: JwtSigner,
) -> bool {
    match s {
        JwtSigner::PrivateKey(k) => k < nkeys && by_key[t]@[k as int],
        JwtSigner::CertKeyPair(p) => p < pairs.len() && pair_verifies(pairs, by_pair[t]@, p as int)
            && (forall|k: int| 0 <= k < nkeys ==> !by_key[t]@[k]) && (forall|q: int|
            0 <= q < p ==> !pair_verifies(pairs, by_pair[t]@, q)),
        JwtSigner::Unknown => false,
    }
}

pub fn first_verifying_key(row: &Vec<bool>) -> (r: Option<usize>)
    ensures
        match r {
            Some(k) => k < row@.len() && row@[k as int] && forall|m: int| 0 <= m < k ==> !row@[m],
            None => forall|m: int| 0 <= m < row@.len() ==> !row@[m],
        },
{
    let mut k: usize = 0;
    while k < row.len()
        invariant
            k <= row@.len(),
            forall|m: int| 0 <= m < k ==> !row@[m],
        decreases row@.len() - k,
    {
        if row[k] {
            return Some(k);
        }
        k = k + 1;
    }
    None
}

pub fn first_verifying_pair(pairs: &Vec<CertKeyPair>, row: &Vec<bool>) -> (r: Option<usize>)
    requires
        row@.len() == pairs@.len(),
    ensures
        match r {
            Some(p) => p < pairs@.len() && pair_verifies(pairs@, row@, p as int) && forall|q: int|
                0 <= q < p ==> !pair_verifies(pairs@, row@, q),
            None => forall|q: int| 0 <= q < pairs@.len() ==> !pair_verifies(pairs@, row@, q),
        },
{
    let mut p: usize = 0;
    while p < pairs.len()
        invariant
            p <= pairs@.len(),
            row@.len() == pairs@.len(),
            forall|q: int| 0 <= q < p ==> !pair_verifies(pairs@, row@, q),
        decreases pairs@.len() - p,
    {
        if pairs[p].distributed_private_key.is_some() && row[p] {
            return Some(p);
        }
        p = p + 1;
    }
    None
}

impl ClusterCryptoObjectsInternal {
    /// Records for every token the key that signed it. The standalone key that
    /// signed the previous token is tried first, then every standalone key,
    /// then the private key of every pair.
    pub fn fill_jwt_signers(&mut self, by_key: &Vec<Vec<bool>>, by_pair: &Vec<Vec<bool>>) -> (r: Result<(), JwtSignerError>)
        requires
            by_key@.len() == old(self).jwts@.len(),
            by_pair@.len() == old(self).jwts@.len(),
            forall|t: int|
                0 <= t < by_key@.len() ==> (#[trigger] by_key@[t])@.len()
                    == old(self).private_keys@.len(),
            forall|t: int|
                0 <= t < by_pair@.len() ==> (#[trigger] by_pair@[t])@.len()
                    == old(self).cert_key_pairs@.len(),
        ensures
            r is Ok <==> forall|t: int|
                0 <= t < old(self).jwts@.len() ==> jwt_signable(
                    old(self).private_keys@.len() as int,
                    old(self).cert_key_pairs@,
                    by_key@,
                    by_pair@,
                    t,
                ),
            r matches Err(JwtSignerError::UnknownSigner(t)) ==> t < old(self).jwts@.len()
                && !jwt_signable(
                old(self).private_keys@.len() as int,
                old(self).cert_key_pairs@,
                by_key@,
                by_pair@,
                t as int,
            ) && forall|u: int|
                0 <= u < t ==> jwt_signable(
                    old(self).private_keys@.len() as int,
                    old(self).cert_key_pairs@,
                    by_key@,
                    by_pair@,
                    u,
                ),
            final(self).jwts@.len() == old(self).jwts@.len(),
            forall|t: int|
                0 <= t < old(self).jwts@.len() ==> #[trigger] final(self).jwts@[t] == (DistributedJwt {
                    signer: final(self).jwts@[t].signer,
                    ..old(self).jwts@[t]
                }),
            r is Ok ==> forall|t: int|
                0 <= t < old(self).jwts@.len() ==> {
                    let j = #[trigger] final(self).jwts@[t];
                    &&& verified_signer(
                        old(self).private_keys@.len() as int,
                        old(self).cert_key_pairs@,
                        by_key@,
                        by_pair@,
                        t,
                        j.signer,
                    )
                },
            final(self).private_keys@ == old(self).private_keys@,
            final(self).public_keys@ == old(self).public_keys@,
            final(self).certs@ == old(self).certs@,
            final(self).cert_key_pairs@ == old(self).cert_key_pairs@,
            final(self).public_to_private@ == old(self).public_to_private@,
    {
        let ghost nkeys = old(self).private_keys@.len() as int;
        let ghost pairs = old(self).cert_key_pairs@;
        let n = self.jwts.len();
        let mut last_signer: Option<usize> = None;
        let mut t: usize = 0;
        while t < n
            invariant
                n == old(self).jwts@.len(),
                t <= n,
                nkeys == self.private_keys@.len(),
                pairs == self.cert_key_pairs@,
                self.jwts@.len() == n,
                by_key@.len() == n,
                by_pair@.len() == n,
                forall|u: int| 0 <= u < n ==> (#[trigger] by_key@[u])@.len() == nkeys,
                forall|u: int| 0 <= u < n ==> (#[trigger] by_pair@[u])@.len() == pairs.len(),
                last_signer matches Some(c) ==> c < nkeys,
                forall|m: int| t <= m < n ==> self.jwts@[m] == old(self).jwts@[m],
                forall|m: int| 0 <= m < n ==> #[trigger] self.jwts@[m] == (DistributedJwt { signer: self.jwts@[m].signer, ..old(self).jwts@[m] }),
                forall|u: int| 0 <= u < t ==> jwt_signable(nkeys, pairs, by_key@, by_pair@, u),
                forall|u: int|
                    0 <= u < t ==> {
                        let j = #[trigger] self.jwts@[u];
                        &&& j == (DistributedJwt { signer: j.signer, ..old(self).jwts@[u] })
                        &&& verified_signer(nkeys, pairs, by_key@, by_pair@, u, j.signer)
                    },
                self.private_keys@ == old(self).private_keys@,
                self.public_keys@ == old(self).public_keys@,
                self.certs@ == old(self).certs@,
                pairs == old(self).cert_key_pairs@,
                self.public_to_private@ == old(self).public_to_private@,
            decreases n - t,
        {
            let row = &by_key[t];
            let mut signer = JwtSigner::Unknown;
            if let Some(c) = last_signer {
                if row[c] {
                    signer = JwtSigner::PrivateKey(c);
                }
            }
            if signer == JwtSigner::Unknown {
                match first_verifying_key(row) {
                    Some(k) => {
                        signer = JwtSigner::PrivateKey(k);
                        last_signer = Some(k);
                    },
                    None => {
                        match first_verifying_pair(&self.cert_key_pairs, &by_pair[t]) {
                            Some(p) => {
                                signer = JwtSigner::CertKeyPair(p);
                            },
                            None => {
                                proof {
                                    assert(!jwt_signable(nkeys, pairs, by_key@, by_pair@, t as int));
                                }
                                return Err(JwtSignerError::UnknownSigner(t));
                            },
                        }
                    },
                }
            }
            proof {
                assert(verified_signer(nkeys, pairs, by_key@, by_pair@, t as int, signer));
                match signer {
                    JwtSigner::PrivateKey(k) => {
                        assert(by_key@[t as int]@[k as int]);
                    },
                    JwtSigner::CertKeyPair(p) => {
                        assert(pair_verifies(pairs, by_pair@[t as int]@, p as int));
                    },
                    JwtSigner::Unknown => {},
                }
            }
            let mut j = self.jwts.remove(t);
            j.signer = signer;
            self.jwts.insert(t, j);
            t = t + 1;
        }
        Ok(())
    }
}

} // verus!
