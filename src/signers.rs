use vstd::prelude::*;
use crate::cluster_crypto::ClusterCryptoObjectsInternal;
use crate::objects::{CertKeyPair, DistributedPrivateKey, DistributedPublicKey};
use crate::x509::{x509_signature_check, x509_verify_signed_by, SignatureCheck};

verus! {

/// Why certificate signers could not be resolved.
#[derive(Clone, Copy, PartialEq, Eq, Structural, Debug)]
pub enum SignerError {
    /// Checking a candidate issuer of this pair's certificate failed.
    VerificationFailed(usize),
    /// No pair's certificate signed this pair's certificate.
    NoSigner(usize),
}

/// `r` is an index of a public key record holding `k`, if there is one.
pub open spec fn public_key_lookup(keys: Seq<DistributedPublicKey>, k: u64, r: Option<usize>) -> bool {
    match r {
        Some(j) => j < keys.len() && keys[j as int].key == k,
        None => forall|j: int| 0 <= j < keys.len() ==> keys[j].key != k,
    }
}

pub fn find_public_key(keys: &Vec<DistributedPublicKey>, k: u64) -> (r: Option<usize>)
    ensures
        public_key_lookup(keys@, k, r),
{
    let mut j: usize = 0;
    while j < keys.len()
        invariant
            j <= keys@.len(),
            forall|i: int| 0 <= i < j ==> keys@[i].key != k,
        decreases keys@.len() - j,
    {
        if keys[j].key == k {
            return Some(j);
        }
        j = j + 1;
    }
    None
}

pub open spec fn self_signed(p: CertKeyPair) -> bool {
    p.distributed_cert.certificate.subject@ == p.distributed_cert.certificate.issuer@
}

/// Candidate `j` is taken as the issuer of pair `i`: the library says so, or
/// it cannot check the algorithm and the fallback check confirms.
pub open spec fn accepts(checks: Seq<Vec<SignatureCheck>>, confirmed: Seq<Vec<bool>>, i: int, j: int) -> bool {
    checks[i]@[j] == SignatureCheck::Signed || (checks[i]@[j] == SignatureCheck::Unsupported
        && confirmed[i]@[j])
}

/// Pair `i` gets a signer: it is self-signed, or no check of its row failed
/// and some candidate is accepted.
pub open spec fn resolvable(
    pairs: Seq<CertKeyPair>,
    checks: Seq<Vec<SignatureCheck>>,
    confirmed: Seq<Vec<bool>>,
    i: int,
) -> bool {
    self_signed(pairs[i]) || ((forall|j: int| 0 <= j < pairs.len() ==> checks[i]@[j] != SignatureCheck::Failed)
        && exists|j: int| 0 <= j < pairs.len() && accepts(checks, confirmed, i, j))
}

pub open spec fn signer_error(pairs: Seq<CertKeyPair>, checks: Seq<Vec<SignatureCheck>>, i: int) -> SignerError {
    if exists|j: int| 0 <= j < pairs.len() && checks[i]@[j] == SignatureCheck::Failed {
        SignerError::VerificationFailed(i as usize)
    } else {
        SignerError::NoSigner(i as usize)
    }
}

/// The signer chosen for pair `i`: none for a self-signed certificate, else the
/// last accepted candidate.
pub open spec fn chosen_signer(
    pairs: Seq<CertKeyPair>,
    checks: Seq<Vec<SignatureCheck>>,
    confirmed: Seq<Vec<bool>>,
    i: int,
    s: Option<usize>,
) -> bool {
    if self_signed(pairs[i]) {
        s is None
    } else {
        s matches Some(j) && j < pairs.len() && accepts(checks, confirmed, i, j as int) && forall|m: int|
            j < m < pairs.len() ==> !accepts(checks, confirmed, i, m)
    }
}

impl ClusterCryptoObjectsInternal {
    /// Attaches to each pair, and to each standalone private key, the public
    /// key record that holds its public half, if one was found.
    pub fn associate_public_keys(&mut self)
        ensures
            final(self).cert_key_pairs@.len() == old(self).cert_key_pairs@.len(),
            forall|i: int|
                0 <= i < old(self).cert_key_pairs@.len() ==> {
                    let p = #[trigger] final(self).cert_key_pairs@[i];
                    &&& p == (CertKeyPair {
                        associated_public_key: p.associated_public_key,
                        ..old(self).cert_key_pairs@[i]
                    })
                    &&& public_key_lookup(
                        old(self).public_keys@,
                        old(self).cert_key_pairs@[i].distributed_cert.certificate.public_key,
                        p.associated_public_key,
                    )
                },
            final(self).private_keys@.len() == old(self).private_keys@.len(),
            forall|i: int|
                0 <= i < old(self).private_keys@.len() ==> {
                    let k = #[trigger] final(self).private_keys@[i];
                    &&& k == (DistributedPrivateKey {
                        associated_public_key: k.associated_public_key,
                        ..old(self).private_keys@[i]
                    })
                    &&& public_key_lookup(
                        old(self).public_keys@,
                        old(self).private_keys@[i].public,
                        k.associated_public_key,
                    )
                },
            final(self).public_keys@ == old(self).public_keys@,
            final(self).certs@ == old(self).certs@,
            final(self).jwts@ == old(self).jwts@,
            final(self).public_to_private@ == old(self).public_to_private@,
    {
        let mut i: usize = 0;
        while i < self.cert_key_pairs.len()
            invariant
                i <= self.cert_key_pairs@.len(),
                self.cert_key_pairs@.len() == old(self).cert_key_pairs@.len(),
                forall|m: int|
                    i <= m < self.cert_key_pairs@.len() ==> self.cert_key_pairs@[m]
                        == old(self).cert_key_pairs@[m],
                forall|m: int|
                    0 <= m < i ==> {
                        let p = #[trigger] self.cert_key_pairs@[m];
                        &&& p == (CertKeyPair {
                            associated_public_key: p.associated_public_key,
                            ..old(self).cert_key_pairs@[m]
                        })
                        &&& public_key_lookup(
                            old(self).public_keys@,
                            old(self).cert_key_pairs@[m].distributed_cert.certificate.public_key,
                            p.associated_public_key,
                        )
                    },
                self.private_keys@ == old(self).private_keys@,
                self.public_keys@ == old(self).public_keys@,
                self.certs@ == old(self).certs@,
                self.jwts@ == old(self).jwts@,
                self.public_to_private@ == old(self).public_to_private@,
            decreases self.cert_key_pairs@.len() - i,
        {
            let found = find_public_key(&self.public_keys, self.cert_key_pairs[i].distributed_cert.certificate.public_key);
            let mut p = self.cert_key_pairs.remove(i);
            p.associated_public_key = found;
            self.cert_key_pairs.insert(i, p);
            i = i + 1;
        }
        let mut i: usize = 0;
        while i < self.private_keys.len()
            invariant
                i <= self.private_keys@.len(),
                self.private_keys@.len() == old(self).private_keys@.len(),
                forall|m: int|
                    i <= m < self.private_keys@.len() ==> self.private_keys@[m]
                        == old(self).private_keys@[m],
                forall|m: int|
                    0 <= m < i ==> {
                        let k = #[trigger] self.private_keys@[m];
                        &&& k == (DistributedPrivateKey {
                            associated_public_key: k.associated_public_key,
                            ..old(self).private_keys@[m]
                        })
                        &&& public_key_lookup(
                            old(self).public_keys@,
                            old(self).private_keys@[m].public,
                            k.associated_public_key,
                        )
                    },
                self.cert_key_pairs@.len() == old(self).cert_key_pairs@.len(),
                forall|m: int|
                    0 <= m < self.cert_key_pairs@.len() ==> {
                        let p = #[trigger] self.cert_key_pairs@[m];
                        &&& p == (CertKeyPair {
                            associated_public_key: p.associated_public_key,
                            ..old(self).cert_key_pairs@[m]
                        })
                        &&& public_key_lookup(
                            old(self).public_keys@,
                            old(self).cert_key_pairs@[m].distributed_cert.certificate.public_key,
                            p.associated_public_key,
                        )
                    },
                self.public_keys@ == old(self).public_keys@,
                self.certs@ == old(self).certs@,
                self.jwts@ == old(self).jwts@,
                self.public_to_private@ == old(self).public_to_private@,
            decreases self.private_keys@.len() - i,
        {
            let found = find_public_key(&self.public_keys, self.private_keys[i].public);
            let mut k = self.private_keys.remove(i);
            k.associated_public_key = found;
            self.private_keys.insert(i, k);
            i = i + 1;
        }
    }

    /// The library's answer, for every pair `i` and candidate `j`, to whether
    /// `j`'s certificate signed `i`'s.
    pub fn signature_checks(&self) -> (r: Vec<Vec<SignatureCheck>>)
        ensures
            r@.len() == self.cert_key_pairs@.len(),
            forall|i: int|
                0 <= i < r@.len() ==> (#[trigger] r@[i])@.len() == self.cert_key_pairs@.len(),
            forall|i: int, j: int|
                0 <= i < r@.len() && 0 <= j < self.cert_key_pairs@.len() ==> (#[trigger] r@[i]@[j])
                    == x509_signature_check(
                    self.cert_key_pairs@[i].distributed_cert.certificate.der@,
                    self.cert_key_pairs@[j].distributed_cert.certificate.der@,
                ),
    {
        let n = self.cert_key_pairs.len();
        let mut r: Vec<Vec<SignatureCheck>> = Vec::new();
        let mut i: usize = 0;
        while i < n
            invariant
                n == self.cert_key_pairs@.len(),
                i <= n,
                r@.len() == i,
                forall|a: int| 0 <= a < i ==> (#[trigger] r@[a])@.len() == n,
                forall|a: int, b: int|
                    0 <= a < i && 0 <= b < n ==> (#[trigger] r@[a]@[b]) == x509_signature_check(
                        self.cert_key_pairs@[a].distributed_cert.certificate.der@,
                        self.cert_key_pairs@[b].distributed_cert.certificate.der@,
                    ),
            decreases n - i,
        {
            let mut row: Vec<SignatureCheck> = Vec::new();
            let mut j: usize = 0;
            while j < n
                invariant
                    n == self.cert_key_pairs@.len(),
                    i < n,
                    j <= n,
                    row@.len() == j,
                    forall|b: int|
                        0 <= b < j ==> (#[trigger] row@[b]) == x509_signature_check(
                            self.cert_key_pairs@[i as int].distributed_cert.certificate.der@,
                            self.cert_key_pairs@[b].distributed_cert.certificate.der@,
                        ),
                decreases n - j,
            {
                let c = x509_verify_signed_by(
                    &self.cert_key_pairs[i].distributed_cert.certificate.der,
                    &self.cert_key_pairs[j].distributed_cert.certificate.der,
                );
                row.push(c);
                j = j + 1;
            }
            r.push(row);
            i = i + 1;
        }
        r
    }

    /// Records for every pair the pair whose certificate issued its own: none
    /// for a self-signed certificate, else the last candidate accepted.
    /// `checks[i][j]` says whether `j`'s certificate signed `i`'s, and
    /// `confirmed[i][j]` what the fallback check says where the library could
    /// not verify the algorithm.
    pub fn fill_cert_key_signers(
        &mut self,
        checks: &Vec<Vec<SignatureCheck>>,
        confirmed: &Vec<Vec<bool>>,
    ) -> (r: Result<(), SignerError>)
        requires
            checks@.len() == old(self).cert_key_pairs@.len(),
            confirmed@.len() == old(self).cert_key_pairs@.len(),
            forall|i: int|
                0 <= i < checks@.len() ==> (#[trigger] checks@[i])@.len()
                    == old(self).cert_key_pairs@.len(),
            forall|i: int|
                0 <= i < confirmed@.len() ==> (#[trigger] confirmed@[i])@.len()
                    == old(self).cert_key_pairs@.len(),
        ensures
            r is Ok <==> forall|i: int|
                0 <= i < old(self).cert_key_pairs@.len() ==> resolvable(
                    old(self).cert_key_pairs@,
                    checks@,
                    confirmed@,
                    i,
                ),
            r matches Err(e) ==> exists|i: int|
                0 <= i < old(self).cert_key_pairs@.len() && !resolvable(
                    old(self).cert_key_pairs@,
                    checks@,
                    confirmed@,
                    i,
                ) && (forall|j: int|
                    0 <= j < i ==> resolvable(old(self).cert_key_pairs@, checks@, confirmed@, j))
                    && e == signer_error(old(self).cert_key_pairs@, checks@, i),
            final(self).cert_key_pairs@.len() == old(self).cert_key_pairs@.len(),
            forall|i: int|
                0 <= i < old(self).cert_key_pairs@.len() ==> #[trigger] final(self).cert_key_pairs@[i] == (CertKeyPair {
                    signer: final(self).cert_key_pairs@[i].signer,
                    ..old(self).cert_key_pairs@[i]
                }),
            r is Ok ==> forall|i: int|
                0 <= i < old(self).cert_key_pairs@.len() ==> chosen_signer(
                    old(self).cert_key_pairs@,
                    checks@,
                    confirmed@,
                    i,
                    (#[trigger] final(self).cert_key_pairs@[i]).signer,
                ),
            final(self).private_keys@ == old(self).private_keys@,
            final(self).public_keys@ == old(self).public_keys@,
            final(self).certs@ == old(self).certs@,
            final(self).jwts@ == old(self).jwts@,
            final(self).public_to_private@ == old(self).public_to_private@,
    {
        let ghost pairs = old(self).cert_key_pairs@;
        let n = self.cert_key_pairs.len();
        let mut i: usize = 0;
        while i < n
            invariant
                n == pairs.len(),
                pairs == old(self).cert_key_pairs@,
                i <= n,
                self.cert_key_pairs@.len() == n,
                checks@.len() == n,
                confirmed@.len() == n,
                forall|a: int| 0 <= a < n ==> (#[trigger] checks@[a])@.len() == n,
                forall|a: int| 0 <= a < n ==> (#[trigger] confirmed@[a])@.len() == n,
                forall|m: int| i <= m < n ==> self.cert_key_pairs@[m] == pairs[m],
                forall|m: int| 0 <= m < n ==> #[trigger] self.cert_key_pairs@[m] == (CertKeyPair { signer: self.cert_key_pairs@[m].signer, ..pairs[m] }),
                forall|m: int| 0 <= m < i ==> resolvable(pairs, checks@, confirmed@, m),
                forall|m: int|
                    0 <= m < i ==> {
                        let p = #[trigger] self.cert_key_pairs@[m];
                        &&& p == (CertKeyPair { signer: p.signer, ..pairs[m] })
                        &&& chosen_signer(pairs, checks@, confirmed@, m, p.signer)
                    },
                self.private_keys@ == old(self).private_keys@,
                self.public_keys@ == old(self).public_keys@,
                self.certs@ == old(self).certs@,
                self.jwts@ == old(self).jwts@,
                self.public_to_private@ == old(self).public_to_private@,
            decreases n - i,
        {
            let is_root = self.cert_key_pairs[i].distributed_cert.certificate.subject
                == self.cert_key_pairs[i].distributed_cert.certificate.issuer;
            let mut signer: Option<usize> = None;
            if !is_root {
                let row = &checks[i];
                let confirmations = &confirmed[i];
                let mut j: usize = 0;
                while j < n
                    invariant
                        n == pairs.len(),
                        i < n,
                        j <= n,
                        checks@.len() == n,
                        confirmed@.len() == n,
                        forall|a: int| 0 <= a < n ==> (#[trigger] checks@[a])@.len() == n,
                        forall|a: int| 0 <= a < n ==> (#[trigger] confirmed@[a])@.len() == n,
                        !self_signed(pairs[i as int]),
                        pairs == old(self).cert_key_pairs@,
                        forall|m: int| 0 <= m < i ==> resolvable(pairs, checks@, confirmed@, m),
                        self.cert_key_pairs@.len() == n,
                        forall|m: int| 0 <= m < n ==> #[trigger] self.cert_key_pairs@[m] == (CertKeyPair { signer: self.cert_key_pairs@[m].signer, ..pairs[m] }),
                        self.private_keys@ == old(self).private_keys@,
                        self.public_keys@ == old(self).public_keys@,
                        self.certs@ == old(self).certs@,
                        self.jwts@ == old(self).jwts@,
                        self.public_to_private@ == old(self).public_to_private@,
                        *row == checks@[i as int],
                        *confirmations == confirmed@[i as int],
                        forall|m: int| 0 <= m < j ==> checks@[i as int]@[m] != SignatureCheck::Failed,
                        match signer {
                            None => forall|m: int| 0 <= m < j ==> !accepts(checks@, confirmed@, i as int, m),
                            Some(s) => s < j && accepts(checks@, confirmed@, i as int, s as int)
                                && forall|m: int| s < m < j ==> !accepts(checks@, confirmed@, i as int, m),
                        },
                    decreases n - j,
                {
                    match row[j] {
                        SignatureCheck::Signed => {
                            signer = Some(j);
                        },
                        SignatureCheck::Unsupported => {
                            if confirmations[j] {
                                signer = Some(j);
                            }
                        },
                        SignatureCheck::Mismatch => {},
                        SignatureCheck::Failed => {
                            proof {
                                assert(checks@[i as int]@[j as int] == SignatureCheck::Failed);
                                assert(!resolvable(pairs, checks@, confirmed@, i as int));
                                assert(signer_error(pairs, checks@, i as int) == SignerError::VerificationFailed(i));
                            }
                            return Err(SignerError::VerificationFailed(i));
                        },
                    }
                    j = j + 1;
                }
                if signer.is_none() {
                    proof {
                        assert(!resolvable(pairs, checks@, confirmed@, i as int));
                        assert(signer_error(pairs, checks@, i as int) == SignerError::NoSigner(i));
                    }
                    return Err(SignerError::NoSigner(i));
                }
            }
            proof {
                assert(resolvable(pairs, checks@, confirmed@, i as int));
                assert(chosen_signer(pairs, checks@, confirmed@, i as int, signer));
            }
            let mut p = self.cert_key_pairs.remove(i);
            p.signer = signer;
            self.cert_key_pairs.insert(i, p);
            i = i + 1;
        }
        Ok(())
    }
}

} // verus!
