use vstd::prelude::*;
use crate::locations::Locations;
use crate::objects::{
    Certificate, DistributedCert, DistributedJwt, DistributedPrivateKey, DistributedPublicKey, Jwt,
    JwtSigner,
};

verus! {

/// A record of a registry: an identity and the sites at which it was seen.
pub trait Registered {
    spec fn id(&self) -> u64;

    spec fn site_set(&self) -> Set<Seq<char>>;
}

impl Registered for DistributedPrivateKey {
    open spec fn id(&self) -> u64 {
        self.key
    }

    open spec fn site_set(&self) -> Set<Seq<char>> {
        self.locations@
    }
}

impl Registered for DistributedPublicKey {
    open spec fn id(&self) -> u64 {
        self.key
    }

    open spec fn site_set(&self) -> Set<Seq<char>> {
        self.locations@
    }
}

impl Registered for DistributedCert {
    open spec fn id(&self) -> u64 {
        self.certificate.content
    }

    open spec fn site_set(&self) -> Set<Seq<char>> {
        self.locations@
    }
}

impl Registered for DistributedJwt {
    open spec fn id(&self) -> u64 {
        self.jwt.content
    }

    open spec fn site_set(&self) -> Set<Seq<char>> {
        self.locations@
    }
}

/// The sites of every record with identity `k`.
pub open spec fn sites_by<R: Registered>(records: Seq<R>, k: u64) -> Set<Seq<char>> {
    Set::new(|l: Seq<char>| exists|i: int| 0 <= i < records.len() && records[i].id() == k && records[i].site_set().contains(l))
}

/// Adding site `lv` to the record at `i`, or appending a new record that has
/// only that site, adds `lv` to the sites of its identity and to no other.
pub proof fn lemma_add_site<R: Registered>(o: Seq<R>, n: Seq<R>, i: int, key: u64, lv: Seq<char>)
    requires
        0 <= i <= o.len(),
        n.len() == if i < o.len() { o.len() } else { o.len() + 1 },
        forall|j: int| 0 <= j < o.len() && j != i ==> n[j] == o[j],
        n[i].id() == key,
        i < o.len() ==> o[i].id() == key && n[i].site_set() == o[i].site_set().insert(lv),
        i == o.len() ==> n[i].site_set() == set![lv],
    ensures
        forall|k: u64|
            #[trigger] sites_by(n, k) == if k == key { sites_by(o, k).insert(lv) } else { sites_by(o, k) },
{
    assert forall|k: u64|
        #[trigger] sites_by(n, k) == if k == key { sites_by(o, k).insert(lv) } else { sites_by(o, k) } by {
        let t = if k == key { sites_by(o, k).insert(lv) } else { sites_by(o, k) };
        assert forall|l: Seq<char>| #[trigger] sites_by(n, k).contains(l) implies t.contains(l) by {
            let j = choose|j: int| 0 <= j < n.len() && n[j].id() == k && n[j].site_set().contains(l);
            if j != i {
                assert(o[j] == n[j]);
            } else if i < o.len() && l != lv {
                assert(o[j].site_set().contains(l));
            }
        }
        assert forall|l: Seq<char>| #[trigger] t.contains(l) implies sites_by(n, k).contains(l) by {
            if k == key && l == lv {
                assert(n[i].site_set().contains(l));
            } else {
                let j = choose|j: int| 0 <= j < o.len() && o[j].id() == k && o[j].site_set().contains(l);
                if j != i {
                    assert(o[j] == n[j]);
                } else {
                    assert(n[j].site_set().contains(l));
                }
            }
        }
        assert(sites_by(n, k) =~= t);
    }
}

/// A record as ingestion creates it: nothing linked, nothing regenerated.
pub open spec fn fresh_private_key(r: DistributedPrivateKey) -> bool {
    r.signees@.len() == 0 && r.associated_public_key is None && !r.regenerated
}

pub open spec fn fresh_public_key(r: DistributedPublicKey) -> bool {
    !r.regenerated
}

pub open spec fn fresh_cert(r: DistributedCert) -> bool {
    r.signed_by is None
}

pub open spec fn fresh_jwt(r: DistributedJwt) -> bool {
    r.signer == JwtSigner::Unknown && !r.regenerated && r.signed_by is None
}

pub open spec fn private_key_sites(records: Seq<DistributedPrivateKey>, k: u64) -> Set<Seq<char>> {
    sites_by(records, k)
}

pub open spec fn private_keys_wf(records: Seq<DistributedPrivateKey>) -> bool {
    &&& forall|i: int| 0 <= i < records.len() ==> (#[trigger] records[i]).locations.wf()
    &&& forall|i: int, j: int| 0 <= i < j < records.len() ==> records[i].key != records[j].key
}

/// Records `loc` as a site of private key `key`, creating the record if it is new.
pub fn upsert_private_key(records: &mut Vec<DistributedPrivateKey>, key: u64, public: u64, loc: String)
    requires
        private_keys_wf(old(records)@),
    ensures
        private_keys_wf(final(records)@),
        forall|k: u64|
            private_key_sites(final(records)@, k) == if k == key {
                private_key_sites(old(records)@, k).insert(loc@)
            } else {
                private_key_sites(old(records)@, k)
            },
        final(records)@.len() >= old(records)@.len(),
        forall|i: int|
            0 <= i < old(records)@.len() ==> (#[trigger] final(records)@[i]) == (DistributedPrivateKey {
                locations: final(records)@[i].locations,
                ..old(records)@[i]
            }),
        forall|i: int| old(records)@.len() <= i < final(records)@.len() ==> fresh_private_key(#[trigger] final(records)@[i]),
        forall|i: int|
            old(records)@.len() <= i < final(records)@.len() ==> (#[trigger] final(records)@[i]).key == key
                && final(records)@[i].public == public,
{
    let ghost lv = loc@;
    let mut i: usize = 0;
    while i < records.len()
        invariant
            i <= records@.len(),
            records@ == old(records)@,
            private_keys_wf(old(records)@),
            lv == loc@,
            forall|j: int| 0 <= j < i ==> records@[j].key != key,
        decreases records@.len() - i,
    {
        if records[i].key == key {
            assert(records@[i as int].locations.wf());
            let mut rec = records.remove(i);
            rec.locations.insert(loc);
            records.insert(i, rec);
            assert(records@[i as int].locations@ == old(records)@[i as int].locations@.insert(lv));
            assert(records@ == old(records)@.update(i as int, rec));
            proof {
                lemma_add_site(old(records)@, records@, i as int, key, lv);
            }
            return;
        }
        i = i + 1;
    }
    let rec = DistributedPrivateKey {
        key,
        public,
        locations: Locations::new(loc),
        signees: Vec::new(),
        associated_public_key: None,
        regenerated: false,
    };
    records.push(rec);
    proof {
        lemma_add_site(old(records)@, records@, old(records)@.len() as int, key, lv);
    }
}

pub open spec fn public_key_sites(records: Seq<DistributedPublicKey>, k: u64) -> Set<Seq<char>> {
    sites_by(records, k)
}

pub open spec fn public_keys_wf(records: Seq<DistributedPublicKey>) -> bool {
    &&& forall|i: int| 0 <= i < records.len() ==> (#[trigger] records[i]).locations.wf()
    &&& forall|i: int, j: int| 0 <= i < j < records.len() ==> records[i].key != records[j].key
}

/// Records `loc` as a site of public key `key`, creating the record if it is new.
pub fn upsert_public_key(records: &mut Vec<DistributedPublicKey>, key: u64, loc: String)
    requires
        public_keys_wf(old(records)@),
    ensures
        public_keys_wf(final(records)@),
        forall|k: u64|
            public_key_sites(final(records)@, k) == if k == key {
                public_key_sites(old(records)@, k).insert(loc@)
            } else {
                public_key_sites(old(records)@, k)
            },
        final(records)@.len() >= old(records)@.len(),
        forall|i: int|
            0 <= i < old(records)@.len() ==> (#[trigger] final(records)@[i]) == (DistributedPublicKey {
                locations: final(records)@[i].locations,
                ..old(records)@[i]
            }),
        forall|i: int| old(records)@.len() <= i < final(records)@.len() ==> fresh_public_key(#[trigger] final(records)@[i]),
{
    let ghost lv = loc@;
    let mut i: usize = 0;
    while i < records.len()
        invariant
            i <= records@.len(),
            records@ == old(records)@,
            public_keys_wf(old(records)@),
            lv == loc@,
            forall|j: int| 0 <= j < i ==> records@[j].key != key,
        decreases records@.len() - i,
    {
        if records[i].key == key {
            assert(records@[i as int].locations.wf());
            let mut rec = records.remove(i);
            rec.locations.insert(loc);
            records.insert(i, rec);
            assert(records@[i as int].locations@ == old(records)@[i as int].locations@.insert(lv));
            assert(records@ == old(records)@.update(i as int, rec));
            proof {
                lemma_add_site(old(records)@, records@, i as int, key, lv);
            }
            return;
        }
        i = i + 1;
    }
    let rec = DistributedPublicKey { key, locations: Locations::new(loc), regenerated: false };
    records.push(rec);
    proof {
        lemma_add_site(old(records)@, records@, old(records)@.len() as int, key, lv);
    }
}

pub open spec fn cert_sites(records: Seq<DistributedCert>, k: u64) -> Set<Seq<char>> {
    sites_by(records, k)
}

pub open spec fn certs_wf(records: Seq<DistributedCert>) -> bool {
    &&& forall|i: int| 0 <= i < records.len() ==> (#[trigger] records[i]).locations.wf()
    &&& forall|i: int, j: int| 0 <= i < j < records.len() ==> records[i].certificate.content != records[j].certificate.content
}

/// Records `loc` as a site of the certificate, creating the record if it is new.
pub fn upsert_cert(records: &mut Vec<DistributedCert>, certificate: Certificate, loc: String)
    requires
        certs_wf(old(records)@),
    ensures
        certs_wf(final(records)@),
        forall|k: u64|
            cert_sites(final(records)@, k) == if k == certificate.content {
                cert_sites(old(records)@, k).insert(loc@)
            } else {
                cert_sites(old(records)@, k)
            },
        final(records)@.len() >= old(records)@.len(),
        forall|i: int|
            0 <= i < old(records)@.len() ==> (#[trigger] final(records)@[i]) == (DistributedCert {
                locations: final(records)@[i].locations,
                ..old(records)@[i]
            }),
        forall|i: int| old(records)@.len() <= i < final(records)@.len() ==> fresh_cert(#[trigger] final(records)@[i]),
{
    let ghost lv = loc@;
    let key = certificate.content;
    let mut i: usize = 0;
    while i < records.len()
        invariant
            i <= records@.len(),
            records@ == old(records)@,
            certs_wf(old(records)@),
            lv == loc@,
            key == certificate.content,
            forall|j: int| 0 <= j < i ==> records@[j].certificate.content != key,
        decreases records@.len() - i,
    {
        if records[i].certificate.content == key {
            assert(records@[i as int].locations.wf());
            let mut rec = records.remove(i);
            rec.locations.insert(loc);
            records.insert(i, rec);
            assert(records@[i as int].locations@ == old(records)@[i as int].locations@.insert(lv));
            assert(records@ == old(records)@.update(i as int, rec));
            proof {
                lemma_add_site(old(records)@, records@, i as int, key, lv);
            }
            return;
        }
        i = i + 1;
    }
    let rec = DistributedCert { certificate, locations: Locations::new(loc), signed_by: None };
    records.push(rec);
    proof {
        lemma_add_site(old(records)@, records@, old(records)@.len() as int, key, lv);
    }
}

pub open spec fn jwt_sites(records: Seq<DistributedJwt>, k: u64) -> Set<Seq<char>> {
    sites_by(records, k)
}

pub open spec fn jwts_wf(records: Seq<DistributedJwt>) -> bool {
    &&& forall|i: int| 0 <= i < records.len() ==> (#[trigger] records[i]).locations.wf()
    &&& forall|i: int, j: int| 0 <= i < j < records.len() ==> records[i].jwt.content != records[j].jwt.content
}

/// Records `loc` as a site of the token, creating the record if it is new.
pub fn upsert_jwt(records: &mut Vec<DistributedJwt>, jwt: Jwt, loc: String)
    requires
        jwts_wf(old(records)@),
    ensures
        jwts_wf(final(records)@),
        forall|k: u64|
            jwt_sites(final(records)@, k) == if k == jwt.content {
                jwt_sites(old(records)@, k).insert(loc@)
            } else {
                jwt_sites(old(records)@, k)
            },
        final(records)@.len() >= old(records)@.len(),
        forall|i: int|
            0 <= i < old(records)@.len() ==> (#[trigger] final(records)@[i]) == (DistributedJwt {
                locations: final(records)@[i].locations,
                ..old(records)@[i]
            }),
        forall|i: int| old(records)@.len() <= i < final(records)@.len() ==> fresh_jwt(#[trigger] final(records)@[i]),
{
    let ghost lv = loc@;
    let key = jwt.content;
    let mut i: usize = 0;
    while i < records.len()
        invariant
            i <= records@.len(),
            records@ == old(records)@,
            jwts_wf(old(records)@),
            lv == loc@,
            key == jwt.content,
            forall|j: int| 0 <= j < i ==> records@[j].jwt.content != key,
        decreases records@.len() - i,
    {
        if records[i].jwt.content == key {
            assert(records@[i as int].locations.wf());
            let mut rec = records.remove(i);
            rec.locations.insert(loc);
            records.insert(i, rec);
            assert(records@[i as int].locations@ == old(records)@[i as int].locations@.insert(lv));
            assert(records@ == old(records)@.update(i as int, rec));
            proof {
                lemma_add_site(old(records)@, records@, i as int, key, lv);
            }
            return;
        }
        i = i + 1;
    }
    let rec = DistributedJwt {
        jwt,
        locations: Locations::new(loc),
        signer: JwtSigner::Unknown,
        regenerated: false,
        signed_by: None,
    };
    records.push(rec);
    proof {
        lemma_add_site(old(records)@, records@, old(records)@.len() as int, key, lv);
    }
}

} // verus!
