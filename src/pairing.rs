use vstd::prelude::*;
use crate::allowlist::{is_known_missing, known_missing};
use crate::cluster_crypto::ClusterCryptoObjectsInternal;
use crate::objects::{CertKeyPair, DistributedCert, DistributedPrivateKey};
use crate::registry::private_keys_wf;

verus! {

broadcast use vstd::std_specs::hash::group_hash_axioms;

/// Why certificates could not be paired with their keys.
#[derive(Clone, Copy, PartialEq, Eq, Structural, Debug)]
pub enum PairingError {
    /// The index names this private key, but no standalone record holds it
    /// (a fault of the graph, not of the input).
    PrivateKeyNotFound(u64),
    /// The certificate with this content has no private key and its subject
    /// is not on the allowlist.
    MissingPrivateKey(u64),
}

pub open spec fn has_private_key(keys: Seq<DistributedPrivateKey>, k: u64) -> bool {
    exists|j: int| 0 <= j < keys.len() && keys[j].key == k
}

/// The private key that the index assigns to a certificate's subject public key.
pub open spec fn indexed_key(index: Map<u64, u64>, c: DistributedCert) -> Option<u64> {
    if index.contains_key(c.certificate.public_key) {
        Some(index[c.certificate.public_key])
    } else {
        None
    }
}

/// Some certificate among the first `n` claims private key `k`.
pub open spec fn claimed(certs: Seq<DistributedCert>, index: Map<u64, u64>, k: u64, n: int) -> bool {
    exists|i: int| 0 <= i < n && indexed_key(index, certs[i]) == Some(k)
}

/// Certificate `i` can be paired: its key is still standalone when its turn
/// comes, or it has no key and its subject is allowed to lack one.
pub open spec fn pairable(
    certs: Seq<DistributedCert>,
    keys: Seq<DistributedPrivateKey>,
    index: Map<u64, u64>,
    allowlist: Seq<String>,
    i: int,
) -> bool {
    match indexed_key(index, certs[i]) {
        Some(k) => has_private_key(keys, k) && !claimed(certs, index, k, i),
        None => known_missing(allowlist, certs[i].certificate.subject@),
    }
}

pub open spec fn pairing_error(certs: Seq<DistributedCert>, index: Map<u64, u64>, i: int) -> PairingError {
    match indexed_key(index, certs[i]) {
        Some(k) => PairingError::PrivateKeyNotFound(k),
        None => PairingError::MissingPrivateKey(certs[i].certificate.content),
    }
}

/// `p` is the fresh pair built for certificate `c`, holding the standalone
/// record of key `k` when there is one.
pub open spec fn fresh_pair(
    p: CertKeyPair,
    c: DistributedCert,
    keys: Seq<DistributedPrivateKey>,
    k: Option<u64>,
) -> bool {
    &&& p.distributed_cert == c
    &&& p.signer is None
    &&& p.signees@.len() == 0
    &&& p.associated_public_key is None
    &&& !p.regenerated
    &&& p.key is None
    &&& match k {
        Some(k) => p.distributed_private_key is Some && p.distributed_private_key->0.key == k
            && keys.contains(p.distributed_private_key->0),
        None => p.distributed_private_key is None,
    }
}

pub fn find_private_key(keys: &Vec<DistributedPrivateKey>, k: u64) -> (r: Option<usize>)
    ensures
        match r {
            Some(j) => j < keys@.len() && keys@[j as int].key == k,
            None => !has_private_key(keys@, k),
        },
{
    let mut j: usize = 0;
    while j < keys.len()
        invariant
            j <= keys@.len(),
            forall|i: int| 0 <= i < j ==> keys@[i].key != k,
        decreases keys@.len() - j,
    {
        if keys[j].key == k {
            return Some(j);
        }
        j = j + 1;
    }
    None
}

impl ClusterCryptoObjectsInternal {
    /// Joins every certificate with the private key whose public half is the
    /// certificate's subject public key, moving the key out of the standalone
    /// pool, and empties the certificate registry.
    pub fn pair_certs_and_keys(&mut self, allowlist: &Vec<String>) -> (r: Result<(), PairingError>)
        requires
            private_keys_wf(old(self).private_keys@),
        ensures
            r is Ok <==> forall|i: int|
                0 <= i < old(self).certs@.len() ==> pairable(
                    old(self).certs@,
                    old(self).private_keys@,
                    old(self).public_to_private@,
                    allowlist@,
                    i,
                ),
            r matches Err(e) ==> exists|i: int|
                0 <= i < old(self).certs@.len() && !pairable(
                    old(self).certs@,
                    old(self).private_keys@,
                    old(self).public_to_private@,
                    allowlist@,
                    i,
                ) && (forall|j: int|
                    0 <= j < i ==> pairable(
                        old(self).certs@,
                        old(self).private_keys@,
                        old(self).public_to_private@,
                        allowlist@,
                        j,
                    )) && e == pairing_error(old(self).certs@, old(self).public_to_private@, i),
            r is Ok ==> {
                &&& final(self).certs@.len() == 0
                &&& final(self).cert_key_pairs@.len() == old(self).cert_key_pairs@.len()
                    + old(self).certs@.len()
                &&& forall|i: int|
                    0 <= i < old(self).cert_key_pairs@.len() ==> final(self).cert_key_pairs@[i]
                        == old(self).cert_key_pairs@[i]
                &&& forall|i: int|
                    0 <= i < old(self).certs@.len() ==> fresh_pair(
                        #[trigger] final(self).cert_key_pairs@[old(self).cert_key_pairs@.len() + i],
                        old(self).certs@[i],
                        old(self).private_keys@,
                        indexed_key(old(self).public_to_private@, old(self).certs@[i]),
                    )
                &&& forall|k: u64|
                    #[trigger] has_private_key(final(self).private_keys@, k) <==> (has_private_key(
                        old(self).private_keys@,
                        k,
                    ) && !claimed(
                        old(self).certs@,
                        old(self).public_to_private@,
                        k,
                        old(self).certs@.len() as int,
                    ))
                &&& forall|j: int|
                    0 <= j < final(self).private_keys@.len() ==> old(self).private_keys@.contains(
                        #[trigger] final(self).private_keys@[j],
                    )
            },
            old(self).certs@.len() == 0 ==> r is Ok && final(self).private_keys@ == old(self).private_keys@
                && final(self).cert_key_pairs@ == old(self).cert_key_pairs@ && final(self).certs@
                == old(self).certs@,
            private_keys_wf(final(self).private_keys@),
            final(self).public_keys@ == old(self).public_keys@,
            final(self).jwts@ == old(self).jwts@,
            final(self).public_to_private@ == old(self).public_to_private@,
    {
        let ghost ocerts = self.certs@;
        let ghost okeys = self.private_keys@;
        let ghost opairs = self.cert_key_pairs@;
        let ghost index = self.public_to_private@;
        let ghost mut done: int = 0;
        while self.certs.len() > 0
            invariant
                0 <= done <= ocerts.len(),
                self.certs@ == ocerts.subrange(done, ocerts.len() as int),
                index == self.public_to_private@,
                index == old(self).public_to_private@,
                ocerts == old(self).certs@,
                okeys == old(self).private_keys@,
                opairs == old(self).cert_key_pairs@,
                self.public_keys@ == old(self).public_keys@,
                self.jwts@ == old(self).jwts@,
                forall|i: int| 0 <= i < done ==> pairable(ocerts, okeys, index, allowlist@, i),
                self.cert_key_pairs@.len() == opairs.len() + done,
                done == 0 ==> self.private_keys@ == okeys && self.cert_key_pairs@ == opairs,
                forall|i: int| 0 <= i < opairs.len() ==> self.cert_key_pairs@[i] == opairs[i],
                forall|i: int|
                    0 <= i < done ==> fresh_pair(
                        #[trigger] self.cert_key_pairs@[opairs.len() + i],
                        ocerts[i],
                        okeys,
                        indexed_key(index, ocerts[i]),
                    ),
                private_keys_wf(self.private_keys@),
                forall|k: u64|
                    #[trigger] has_private_key(self.private_keys@, k) <==> (has_private_key(okeys, k)
                        && !claimed(ocerts, index, k, done)),
                forall|j: int|
                    0 <= j < self.private_keys@.len() ==> okeys.contains(
                        #[trigger] self.private_keys@[j],
                    ),
            decreases self.certs@.len(),
        {
            let dc = self.certs.remove(0);
            assert(dc == ocerts[done]);
            let pk = dc.certificate.public_key;
            let mut private_key: Option<DistributedPrivateKey> = None;
            match self.public_to_private.get(&pk) {
                Some(k_ref) => {
                    let k = *k_ref;
                    match find_private_key(&self.private_keys, k) {
                        Some(j) => {
                            let ghost before = self.private_keys@;
                            let rec = self.private_keys.remove(j);
                            proof {
                                let after = self.private_keys@;
                                assert(has_private_key(before, k)) by {
                                    assert(before[j as int].key == k);
                                }
                                assert(indexed_key(index, ocerts[done]) == Some(k));
                                assert(pairable(ocerts, okeys, index, allowlist@, done));
                                assert(before.contains(rec)) by {
                                    assert(before[j as int] == rec);
                                }
                                assert(after =~= before.remove(j as int));
                                assert forall|x: u64| #[trigger]
                                    has_private_key(after, x) <==> (has_private_key(before, x) && x
                                        != k) by {
                                    if has_private_key(after, x) {
                                        let m = choose|m: int| 0 <= m < after.len() && after[m].key == x;
                                        if m < j {
                                            assert(before[m] == after[m]);
                                        } else {
                                            assert(before[m + 1] == after[m]);
                                        }
                                    }
                                    if has_private_key(before, x) && x != k {
                                        let m = choose|m: int| 0 <= m < before.len() && before[m].key == x;
                                        assert(m != j);
                                        if m < j {
                                            assert(before[m] == after[m]);
                                        } else {
                                            assert(before[m] == after[m - 1]);
                                        }
                                    }
                                }
                                assert forall|x: u64| #[trigger]
                                    claimed(ocerts, index, x, done + 1) <==> (claimed(ocerts, index, x, done)
                                        || x == k) by {
                                    if claimed(ocerts, index, x, done + 1) && x != k {
                                        let m = choose|m: int| 0 <= m < done + 1 && indexed_key(index, ocerts[m]) == Some(x);
                                        assert(m < done);
                                    }
                                    if x == k {
                                        assert(indexed_key(index, ocerts[done]) == Some(x));
                                    }
                                }
                                assert forall|m: int| 0 <= m < after.len() implies okeys.contains(
                                    #[trigger] after[m],
                                ) by {
                                    if m < j {
                                        assert(before[m] == after[m]);
                                    } else {
                                        assert(before[m + 1] == after[m]);
                                    }
                                }
                                assert(private_keys_wf(after)) by {
                                    assert forall|m: int| 0 <= m < after.len() implies (#[trigger] after[m]).locations.wf() by {
                                        if m < j {
                                            assert(before[m] == after[m]);
                                        } else {
                                            assert(before[m + 1] == after[m]);
                                        }
                                    }
                                }
                            }
                            private_key = Some(rec);
                        },
                        None => {
                            assert(indexed_key(index, ocerts[done]) == Some(k));
                            assert(!has_private_key(self.private_keys@, k));
                            assert(!pairable(ocerts, okeys, index, allowlist@, done));
                            assert(pairing_error(ocerts, index, done) == PairingError::PrivateKeyNotFound(k));
                            return Err(PairingError::PrivateKeyNotFound(k));
                        },
                    }
                },
                None => {
                    if !is_known_missing(allowlist, &dc.certificate.subject) {
                        assert(indexed_key(index, ocerts[done]) is None);
                        assert(!pairable(ocerts, okeys, index, allowlist@, done));
                        assert(pairing_error(ocerts, index, done) == PairingError::MissingPrivateKey(
                            dc.certificate.content,
                        ));
                        return Err(PairingError::MissingPrivateKey(dc.certificate.content));
                    }
                    assert(pairable(ocerts, okeys, index, allowlist@, done));
                    assert forall|x: u64| #[trigger]
                        claimed(ocerts, index, x, done + 1) <==> claimed(ocerts, index, x, done) by {
                        if claimed(ocerts, index, x, done + 1) {
                            let m = choose|m: int| 0 <= m < done + 1 && indexed_key(index, ocerts[m]) == Some(x);
                            assert(m < done);
                        }
                    }
                },
            }
            let pair = CertKeyPair {
                distributed_cert: dc,
                distributed_private_key: private_key,
                associated_public_key: None,
                signer: None,
                signees: Vec::new(),
                regenerated: false,
                key: None,
            };
            self.cert_key_pairs.push(pair);
            proof {
                done = done + 1;
            }
        }
        Ok(())
    }
}

} // verus!
