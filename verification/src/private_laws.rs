//! What holds of private content across its operations: the owner of a token
//! is never one of its readers, and the identity content is encrypted for
//! depends on the owner and the resolved readers alone.

use vstd::prelude::*;
use crate::access::{is_canonical_identity, sorted_listing, ReaderInfoView};
use crate::principal::{lemma_principal_order, principal_lt};
use crate::private_content::{
    new_readers_of, private_mint_fold, readers_updated, PrivateContentStatus, PrivateContentView,
    PrivateEntryView,
};

verus! {

/// Two listings of the same set in increasing order are the same listing.
proof fn lemma_sorted_listing_unique(ps: Seq<Seq<u8>>, qs: Seq<Seq<u8>>, s: Set<Seq<u8>>)
    requires
        sorted_listing(ps, s),
        sorted_listing(qs, s),
    ensures
        ps == qs,
    decreases ps.len(),
{
    if ps.len() == 0 {
        if qs.len() > 0 {
            assert(s.contains(qs[0]));
        }
        assert(ps =~= qs);
    } else if qs.len() == 0 {
        assert(s.contains(ps[0]));
    } else {
        let a = ps[0];
        let b = qs[0];
        assert(s.contains(a) && s.contains(b));
        if a != b {
            let i = choose|i: int| 0 <= i < ps.len() && ps[i] == b;
            let j = choose|j: int| 0 <= j < qs.len() && qs[j] == a;
            assert(i != 0 && j != 0);
            assert(principal_lt(ps[0], ps[i]));
            assert(principal_lt(qs[0], qs[j]));
            lemma_principal_order(a, b, a);
        }
        let s1 = s.remove(a);
        let ps1 = ps.drop_first();
        let qs1 = qs.drop_first();
        assert forall|i: int| 0 <= i < ps1.len() implies s1.contains(#[trigger] ps1[i]) by {
            assert(principal_lt(ps[0], ps[i + 1]));
            lemma_principal_order(ps[0], ps[0], ps[0]);
        }
        assert forall|p: Seq<u8>| #[trigger] s1.contains(p) implies exists|i: int| 0 <= i < ps1.len() && ps1[i] == p by {
            let i = choose|i: int| 0 <= i < ps.len() && ps[i] == p;
            assert(ps1[i - 1] == p);
        }
        assert forall|i: int| 0 <= i < qs1.len() implies s1.contains(#[trigger] qs1[i]) by {
            assert(principal_lt(qs[0], qs[i + 1]));
            lemma_principal_order(qs[0], qs[0], qs[0]);
        }
        assert forall|p: Seq<u8>| #[trigger] s1.contains(p) implies exists|i: int| 0 <= i < qs1.len() && qs1[i] == p by {
            let i = choose|i: int| 0 <= i < qs.len() && qs[i] == p;
            assert(qs1[i - 1] == p);
        }
        assert forall|i: int, j: int| 0 <= i < j < ps1.len() implies principal_lt(#[trigger] ps1[i], #[trigger] ps1[j]) by {
            assert(principal_lt(ps[i + 1], ps[j + 1]));
        }
        assert forall|i: int, j: int| 0 <= i < j < qs1.len() implies principal_lt(#[trigger] qs1[i], #[trigger] qs1[j]) by {
            assert(principal_lt(qs[i + 1], qs[j + 1]));
        }
        lemma_sorted_listing_unique(ps1, qs1, s1);
        assert(a == b);
        assert(ps.len() == qs.len());
        assert(ps =~= qs) by {
            assert forall|i: int| 0 <= i < ps.len() implies ps[i] == qs[i] by {
                if i > 0 {
                    assert(ps[i] == ps1[i - 1]);
                    assert(qs[i] == qs1[i - 1]);
                }
            }
        }
    }
}

/// The identity content is encrypted for is a function of the owner and
/// the resolved readers, and listing the owner among them changes nothing.
pub proof fn lemma_canonical_identity_determined(
    owner: Seq<u8>,
    resolved: Set<Seq<u8>>,
    id1: Seq<u8>,
    id2: Seq<u8>,
)
    requires
        is_canonical_identity(owner, resolved, id1),
    ensures
        is_canonical_identity(owner, resolved, id2) ==> id1 == id2,
        is_canonical_identity(owner, resolved.insert(owner), id1),
{
    if is_canonical_identity(owner, resolved, id2) {
        let ps = choose|ps: Seq<Seq<u8>>|
            #[trigger] sorted_listing(ps, resolved.insert(owner)) && id1 == vstd::utf8::encode_utf8(
                crate::access::joined_texts(ps),
            );
        let qs = choose|qs: Seq<Seq<u8>>|
            #[trigger] sorted_listing(qs, resolved.insert(owner)) && id2 == vstd::utf8::encode_utf8(
                crate::access::joined_texts(qs),
            );
        lemma_sorted_listing_unique(ps, qs, resolved.insert(owner));
    }
    assert(resolved.insert(owner).insert(owner) =~= resolved.insert(owner));
}

/// Once readers are set on an entry, the token's owner is not one of
/// them; if the readers or the identity changed, content that was already
/// uploaded waits for re-encryption and the identity it had is kept.
pub proof fn lemma_set_readers_excludes_owner(
    e: PrivateEntryView,
    readers: Map<Seq<u8>, ReaderInfoView>,
    owner: Seq<u8>,
    id: Seq<u8>,
)
    ensures
        !readers_updated(e, new_readers_of(readers, owner), id).readers.contains_key(owner),
        readers_updated(e, new_readers_of(readers, owner), id).canonical_identity == id,
        e.status != PrivateContentStatus::PendingUpload ==> readers_updated(
            e,
            new_readers_of(readers, owner),
            id,
        ).status == PrivateContentStatus::PendingReencryption || readers_updated(
            e,
            new_readers_of(readers, owner),
            id,
        ) == e,
{
}

/// The entries that minting gives a token are active and none lists
/// the owner among its readers.
pub proof fn lemma_mint_excludes_owner(
    v: PrivateContentView,
    es: Seq<(Seq<char>, Seq<u8>)>,
    owner: Seq<u8>,
    name: Seq<char>,
)
    requires
        private_mint_fold(v, es, owner).1.contains_key(name),
    ensures
        !private_mint_fold(v, es, owner).1[name].readers.contains_key(owner),
        private_mint_fold(v, es, owner).1[name].status == PrivateContentStatus::Active,
    decreases es.len(),
{
    if es.len() > 0 {
        let prev = private_mint_fold(v, es.drop_last(), owner);
        if prev.1.contains_key(name) {
            lemma_mint_excludes_owner(v, es.drop_last(), owner, name);
        }
    }
}

/// The identity a ciphertext is still encrypted for survives reader
/// changes until the re-encryption happens: setting readers on an entry
/// that awaits re-encryption keeps its previous identity; on any other
/// entry, a change of readers or identity keeps the identity it had as the
/// previous one. Either way the entry takes the new readers and identity,
/// and content already uploaded then awaits re-encryption.
pub proof fn lemma_set_readers_keeps_encrypting_identity(
    e: PrivateEntryView,
    nr: Map<Seq<u8>, ReaderInfoView>,
    id: Seq<u8>,
)
    ensures
        e.status == PrivateContentStatus::PendingReencryption ==> readers_updated(e, nr, id).previous_canonical_identity
            == e.previous_canonical_identity,
        e.status != PrivateContentStatus::PendingReencryption && (e.readers != nr || e.canonical_identity != id)
            ==> readers_updated(e, nr, id).previous_canonical_identity == Some(e.canonical_identity),
        readers_updated(e, nr, id).readers == nr,
        readers_updated(e, nr, id).canonical_identity == id,
        (e.readers != nr || e.canonical_identity != id) && e.status != PrivateContentStatus::PendingUpload
            ==> readers_updated(e, nr, id).status == PrivateContentStatus::PendingReencryption,
        readers_updated(e, nr, id).hash == e.hash && readers_updated(e, nr, id).storage_path == e.storage_path,
{
}

/// Two reader changes in a row, before any re-encryption, keep the identity
/// the stored ciphertext was encrypted for before the first: that identity
/// is what the re-encryption starts from.
pub proof fn lemma_set_readers_twice_keeps_first_identity(
    e: PrivateEntryView,
    nr1: Map<Seq<u8>, ReaderInfoView>,
    id1: Seq<u8>,
    nr2: Map<Seq<u8>, ReaderInfoView>,
    id2: Seq<u8>,
)
    requires
        e.status == PrivateContentStatus::Active,
        e.readers != nr1 || e.canonical_identity != id1,
    ensures
        readers_updated(readers_updated(e, nr1, id1), nr2, id2).previous_canonical_identity == Some(
            e.canonical_identity,
        ),
        readers_updated(readers_updated(e, nr1, id1), nr2, id2).canonical_identity == id2,
{
}

} // verus!
