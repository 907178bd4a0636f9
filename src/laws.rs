use vstd::prelude::*;
use crate::cluster_crypto::{index_after, stream_sites, ClusterCryptoObjectsInternal};
use crate::objects::{ArtifactId, CertKeyPair, DiscoveredCryptoObject, DistributedCert};
use crate::objects::{Signee};
use crate::pairing::{fresh_pair, has_private_key, indexed_key};
use crate::regenerate::{regeneration_complete, signee_regenerated};
use crate::signees::{key_signee, pair_signee};
use crate::registry::certs_wf;
use crate::signers::chosen_signer;
use crate::x509::SignatureCheck;

verus! {

/// The sites at which the stream reports `id`, read off directly.
pub open spec fn appeared(evs: Seq<DiscoveredCryptoObject>, id: ArtifactId) -> Set<Seq<char>> {
    Set::new(
        |l: Seq<char>|
            exists|i: int| 0 <= i < evs.len() && evs[i].crypto_object.id() == id && evs[i].location@ == l,
    )
}

pub proof fn lemma_stream_sites_appeared(evs: Seq<DiscoveredCryptoObject>, id: ArtifactId)
    ensures
        stream_sites(evs, id) == appeared(evs, id),
    decreases evs.len(),
{
    if evs.len() == 0 {
        assert(appeared(evs, id) =~= Set::empty());
    } else {
        let rest = evs.drop_last();
        lemma_stream_sites_appeared(rest, id);
        assert forall|l: Seq<char>| appeared(evs, id).contains(l) implies stream_sites(evs, id).contains(l) by {
            let i = choose|i: int| 0 <= i < evs.len() && evs[i].crypto_object.id() == id && evs[i].location@ == l;
            if i < evs.len() - 1 {
                assert(rest[i] == evs[i]);
                assert(appeared(rest, id).contains(l));
            }
        }
        assert forall|l: Seq<char>| stream_sites(evs, id).contains(l) implies appeared(evs, id).contains(l) by {
            if appeared(rest, id).contains(l) {
                let i = choose|i: int| 0 <= i < rest.len() && rest[i].crypto_object.id() == id && rest[i].location@ == l;
                assert(evs[i] == rest[i]);
            } else {
                assert(evs[evs.len() - 1].location@ == l);
            }
        }
        assert(stream_sites(evs, id) =~= appeared(evs, id));
    }
}

pub proof fn lemma_empty_has_no_sites(s: ClusterCryptoObjectsInternal, id: ArtifactId)
    requires
        s.is_empty(),
    ensures
        s.sites(id) == Set::<Seq<char>>::empty(),
{
    assert(s.sites(id) =~= Set::<Seq<char>>::empty());
}

/// Ingesting a stream into an empty registry leaves each artifact with exactly
/// the sites at which the stream reported it.
pub proof fn lemma_ingestion_records_every_site(
    before: ClusterCryptoObjectsInternal,
    after: ClusterCryptoObjectsInternal,
    evs: Seq<DiscoveredCryptoObject>,
    id: ArtifactId,
)
    requires
        before.is_empty(),
        forall|x: ArtifactId| #[trigger] after.sites(x) == before.sites(x).union(stream_sites(evs, x)),
    ensures
        after.sites(id) == appeared(evs, id),
{
    lemma_empty_has_no_sites(before, id);
    lemma_stream_sites_appeared(evs, id);
    assert(after.sites(id) =~= appeared(evs, id));
}

/// Ingesting the same stream a second time changes no artifact's sites.
pub proof fn lemma_ingestion_idempotent(
    s0: ClusterCryptoObjectsInternal,
    s1: ClusterCryptoObjectsInternal,
    s2: ClusterCryptoObjectsInternal,
    evs: Seq<DiscoveredCryptoObject>,
)
    requires
        forall|x: ArtifactId| #[trigger] s1.sites(x) == s0.sites(x).union(stream_sites(evs, x)),
        forall|x: ArtifactId| #[trigger] s2.sites(x) == s1.sites(x).union(stream_sites(evs, x)),
    ensures
        forall|x: ArtifactId| #[trigger] s2.sites(x) == s1.sites(x),
{
    assert forall|x: ArtifactId| #[trigger] s2.sites(x) == s1.sites(x) by {
        assert(s2.sites(x) =~= s1.sites(x));
    }
}

/// The same event ingested twice in one stream gives the sites of ingesting it once.
pub proof fn lemma_repeated_event_counts_once(e: DiscoveredCryptoObject, id: ArtifactId)
    ensures
        stream_sites(seq![e, e], id) == stream_sites(seq![e], id),
{
    assert(seq![e, e].drop_last() =~= seq![e]);
    assert(seq![e].drop_last() =~= Seq::<DiscoveredCryptoObject>::empty());
    if e.crypto_object.id() == id {
        assert(stream_sites(seq![e, e], id) =~= stream_sites(seq![e], id));
    }
}

/// An empty stream changes neither the sites nor the public-to-private index.
pub proof fn lemma_empty_stream_changes_nothing(
    s0: ClusterCryptoObjectsInternal,
    s1: ClusterCryptoObjectsInternal,
)
    requires
        forall|x: ArtifactId|
            #[trigger] s1.sites(x) == s0.sites(x).union(stream_sites(Seq::empty(), x)),
        s1.public_to_private@ == index_after(s0.public_to_private@, Seq::empty()),
    ensures
        forall|x: ArtifactId| #[trigger] s1.sites(x) == s0.sites(x),
        s1.public_to_private@ == s0.public_to_private@,
{
    assert forall|x: ArtifactId| #[trigger] s1.sites(x) == s0.sites(x) by {
        assert(s1.sites(x) =~= s0.sites(x));
    }
}

/// After the first pairing, each certificate of the registry sits in exactly
/// one pair: the one built for it.
pub proof fn lemma_each_cert_in_one_pair(
    certs: Seq<DistributedCert>,
    pairs: Seq<CertKeyPair>,
    s0: ClusterCryptoObjectsInternal,
    i: int,
)
    requires
        certs_wf(certs),
        s0.certs@ == certs,
        pairs.len() == certs.len(),
        forall|j: int|
            0 <= j < certs.len() ==> fresh_pair(
                #[trigger] pairs[j],
                certs[j],
                s0.private_keys@,
                indexed_key(s0.public_to_private@, certs[j]),
            ),
        0 <= i < certs.len(),
    ensures
        pairs[i].distributed_cert == certs[i],
        forall|p: int|
            0 <= p < pairs.len() && pairs[p].distributed_cert.certificate.content
                == certs[i].certificate.content ==> p == i,
{
    assert(fresh_pair(pairs[i], certs[i], s0.private_keys@, indexed_key(s0.public_to_private@, certs[i])));
    assert forall|p: int|
        0 <= p < pairs.len() && pairs[p].distributed_cert.certificate.content
            == certs[i].certificate.content implies p == i by {
        assert(fresh_pair(pairs[p], certs[p], s0.private_keys@, indexed_key(s0.public_to_private@, certs[p])));
    }
}

/// After a successful regeneration, whatever a pair or a standalone private
/// key lists among its signees was regenerated too.
pub proof fn lemma_signees_regenerated(s: ClusterCryptoObjectsInternal, x: Signee)
    requires
        regeneration_complete(s),
    ensures
        forall|i: int|
            0 <= i < s.cert_key_pairs@.len() && #[trigger] s.cert_key_pairs@[i].signees@.contains(x)
                ==> signee_regenerated(s, x),
        forall|k: int|
            0 <= k < s.private_keys@.len() && #[trigger] s.private_keys@[k].signees@.contains(x)
                ==> signee_regenerated(s, x),
{
}

/// Pairing again once the certificate registry is empty leaves the pairs and
/// the standalone private keys as they were.
pub proof fn lemma_second_pairing_changes_nothing(s0: ClusterCryptoObjectsInternal, s1: ClusterCryptoObjectsInternal)
    requires
        s0.certs@.len() == 0,
        s1.cert_key_pairs@.len() == s0.cert_key_pairs@.len() + s0.certs@.len(),
        forall|i: int| 0 <= i < s0.cert_key_pairs@.len() ==> s1.cert_key_pairs@[i] == s0.cert_key_pairs@[i],
        forall|k: u64|
            #[trigger] has_private_key(s1.private_keys@, k) <==> (has_private_key(s0.private_keys@, k)
                && !crate::pairing::claimed(s0.certs@, s0.public_to_private@, k, s0.certs@.len() as int)),
    ensures
        s1.cert_key_pairs@ == s0.cert_key_pairs@,
        forall|k: u64| #[trigger] has_private_key(s1.private_keys@, k) == has_private_key(s0.private_keys@, k),
{
    assert(s1.cert_key_pairs@ =~= s0.cert_key_pairs@);
}

/// Backfilling signees a second time gives every pair and every standalone
/// private key the same signees as the first time.
pub proof fn lemma_signee_backfill_idempotent(
    s0: ClusterCryptoObjectsInternal,
    s1: ClusterCryptoObjectsInternal,
    s2: ClusterCryptoObjectsInternal,
)
    requires
        s1.cert_key_pairs@.len() == s0.cert_key_pairs@.len(),
        s1.jwts@ == s0.jwts@,
        forall|c: int|
            0 <= c < s0.cert_key_pairs@.len() ==> {
                let p = #[trigger] s1.cert_key_pairs@[c];
                &&& p == (CertKeyPair { signees: p.signees, ..s0.cert_key_pairs@[c] })
                &&& forall|x: Signee| p.signees@.contains(x) <==> pair_signee(s0.cert_key_pairs@, s0.jwts@, c, x)
            },
        s2.cert_key_pairs@.len() == s1.cert_key_pairs@.len(),
        forall|c: int|
            0 <= c < s1.cert_key_pairs@.len() ==> {
                let p = #[trigger] s2.cert_key_pairs@[c];
                &&& forall|x: Signee| p.signees@.contains(x) <==> pair_signee(s1.cert_key_pairs@, s1.jwts@, c, x)
            },
        s1.private_keys@.len() == s0.private_keys@.len(),
        forall|k: int|
            0 <= k < s0.private_keys@.len() ==> forall|x: Signee|
                (#[trigger] s1.private_keys@[k]).signees@.contains(x) <==> key_signee(s0.jwts@, k, x),
        s2.private_keys@.len() == s1.private_keys@.len(),
        forall|k: int|
            0 <= k < s1.private_keys@.len() ==> forall|x: Signee|
                (#[trigger] s2.private_keys@[k]).signees@.contains(x) <==> key_signee(s1.jwts@, k, x),
    ensures
        forall|c: int, x: Signee|
            0 <= c < s1.cert_key_pairs@.len() ==> (#[trigger] s2.cert_key_pairs@[c].signees@.contains(x)
                <==> s1.cert_key_pairs@[c].signees@.contains(x)),
        forall|k: int, x: Signee|
            0 <= k < s1.private_keys@.len() ==> (#[trigger] s2.private_keys@[k].signees@.contains(x)
                <==> s1.private_keys@[k].signees@.contains(x)),
{
    assert forall|c: int, x: Signee|
        0 <= c < s1.cert_key_pairs@.len() implies (#[trigger] s2.cert_key_pairs@[c].signees@.contains(x)
            <==> s1.cert_key_pairs@[c].signees@.contains(x)) by {
        let p1 = s1.cert_key_pairs@[c];
        let p2 = s2.cert_key_pairs@[c];
        assert(p1 == (CertKeyPair { signees: p1.signees, ..s0.cert_key_pairs@[c] }));
        match x {
            Signee::CertKeyPair(q) => {
                if q < s0.cert_key_pairs@.len() {
                    let pq = s1.cert_key_pairs@[q as int];
                    assert(pq == (CertKeyPair { signees: pq.signees, ..s0.cert_key_pairs@[q as int] }));
                    match pq.signer {
                        Some(g) => {
                            if g < s0.cert_key_pairs@.len() {
                                let pg = s1.cert_key_pairs@[g as int];
                                assert(pg == (CertKeyPair { signees: pg.signees, ..s0.cert_key_pairs@[g as int] }));
                            }
                        },
                        None => {},
                    }
                }
                assert(pair_signee(s1.cert_key_pairs@, s1.jwts@, c, x) == pair_signee(s0.cert_key_pairs@, s0.jwts@, c, x));
            },
            Signee::Jwt(t) => {},
        }
    }
    assert forall|k: int, x: Signee|
        0 <= k < s1.private_keys@.len() implies (#[trigger] s2.private_keys@[k].signees@.contains(x)
            <==> s1.private_keys@[k].signees@.contains(x)) by {
        let a = s1.private_keys@[k];
        let b = s2.private_keys@[k];
        assert(b.signees@.contains(x) <==> key_signee(s1.jwts@, k, x));
        assert(a.signees@.contains(x) <==> key_signee(s0.jwts@, k, x));
    }
}

/// Appending to a stream an event it already holds adds no site to any artifact.
pub proof fn lemma_repeated_event_adds_no_site(evs: Seq<DiscoveredCryptoObject>, j: int, id: ArtifactId)
    requires
        0 <= j < evs.len(),
    ensures
        stream_sites(evs.push(evs[j]), id) == stream_sites(evs, id),
{
    let e = evs[j];
    assert(evs.push(e).drop_last() =~= evs);
    if e.crypto_object.id() == id {
        lemma_stream_sites_appeared(evs, id);
        assert(appeared(evs, id).contains(e.location@));
        assert(stream_sites(evs.push(e), id) =~= stream_sites(evs, id));
    }
}

/// Resolving certificate signers again, with the same checks, on pairs that
/// differ only in their signers, picks the same signer for every pair.
pub proof fn lemma_signer_resolution_stable(
    pairs: Seq<CertKeyPair>,
    again: Seq<CertKeyPair>,
    checks: Seq<Vec<SignatureCheck>>,
    confirmed: Seq<Vec<bool>>,
    i: int,
    first: Option<usize>,
    second: Option<usize>,
)
    requires
        again.len() == pairs.len(),
        forall|j: int| 0 <= j < pairs.len() ==> #[trigger] again[j] == (CertKeyPair { signer: again[j].signer, ..pairs[j] }),
        0 <= i < pairs.len(),
        chosen_signer(pairs, checks, confirmed, i, first),
        chosen_signer(again, checks, confirmed, i, second),
    ensures
        first == second,
{
    assert(again[i] == (CertKeyPair { signer: again[i].signer, ..pairs[i] }));
    if let (Some(a), Some(b)) = (first, second) {
        if a < b {
            assert(!crate::signers::accepts(checks, confirmed, i, b as int));
        } else if b < a {
            assert(!crate::signers::accepts(checks, confirmed, i, a as int));
        }
    }
}

} // verus!
