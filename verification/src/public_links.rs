//! Linking uploaded files to a token: at mint time, and when files are
//! appended to a token that has none yet.
//!
//! Each entry names a file path. A file still in the upload cache leaves the
//! cache; any other file is looked up among the files that tokens already
//! hold. The file must be finalized; it is then recorded in both indexes and
//! becomes an entry of the token's new record. The entries are taken one after
//! the other and the first failure stops the work, keeping what was done
//! before it.

use vstd::prelude::*;
use crate::keyed::{DeepCopy, KeyedMap, KeyedSet, MapKey};
use crate::public_content::{
    files_of, is_linked_entry, linked_at, NftPublicRecord, NftPublicRecordView,
    PublicContentError, PublicContentSystem, PublicContentView, PublicEntry, PublicEntryView,
};
use crate::upload::{AppendFileError, UploadState};

verus! {

/// Token `t` holds, under its entry `name`, a file whose hash is `p`.
pub open spec fn holds_hash_at(v: PublicContentView, p: Seq<char>, t: u128, name: Seq<char>) -> bool {
    &&& v.nft_public.contains_key(t)
    &&& v.nft_public[t].entries.contains_key(name)
    &&& v.nft_public[t].entries[name].hash == p
}

/// The index lists at least one token for the stored file `p`, and each token
/// it lists has an entry stored at `p`.
pub open spec fn every_user_links(v: PublicContentView, p: Seq<char>) -> bool {
    &&& v.file_to_nfts.contains_key(p)
    &&& !v.file_to_nfts[p].is_empty()
    &&& forall|t: u128|
        #[trigger] v.file_to_nfts[p].contains(t) ==> exists|name: Seq<char>|
            #[trigger] linked_at(v, p, t, name)
}

/// What a lookup of the file `p` among the tokens' entries may answer: by
/// hash over all tokens (`by_hash`), or else through one token that the index
/// lists for `p`, whichever that is.
pub open spec fn lookup_answer(
    v: PublicContentView,
    p: Seq<char>,
    by_hash: bool,
    r: Option<PublicEntryView>,
) -> bool {
    if by_hash {
        match r {
            Some(e) => exists|t: u128, name: Seq<char>| #[trigger]
                holds_hash_at(v, p, t, name) && v.nft_public[t].entries[name] == e,
            None => !exists|t: u128, name: Seq<char>| #[trigger] holds_hash_at(v, p, t, name),
        }
    } else {
        match r {
            Some(e) => is_linked_entry(v, p, e),
            None => !every_user_links(v, p),
        }
    }
}

/// Why an entry could not be linked.
pub enum LinkFailure {
    Missing,
    NotFinalized,
}

/// The tokens that the index lists for the stored file `f`.
pub open spec fn users_of(v: PublicContentView, f: Seq<char>) -> Set<u128> {
    if v.file_to_nfts.contains_key(f) {
        v.file_to_nfts[f]
    } else {
        Set::empty()
    }
}

/// `v` with the token `t` recorded as a user of the stored file `f`.
pub open spec fn with_link(v: PublicContentView, t: u128, f: Seq<char>) -> PublicContentView {
    PublicContentView {
        file_to_nfts: v.file_to_nfts.insert(f, users_of(v, f).insert(t)),
        nft_to_files: v.nft_to_files.insert(t, files_of(v, t).insert(f)),
        ..v
    }
}

/// One step of linking the entry `name`, whose file is at `p`, to the token
/// `t`, with `rec` the entries linked so far: a cached upload at `p` leaves
/// the cache; otherwise `found` is what the lookup answered.
pub open spec fn link_step(
    v: PublicContentView,
    rec: Map<Seq<char>, PublicEntryView>,
    t: u128,
    name: Seq<char>,
    p: Seq<char>,
    found: Option<PublicEntryView>,
) -> (PublicContentView, Map<Seq<char>, PublicEntryView>, Option<LinkFailure>) {
    let cached = v.temp_file_cache.contains_key(p);
    let v1 = if cached {
        PublicContentView { temp_file_cache: v.temp_file_cache.remove(p), ..v }
    } else {
        v
    };
    let e = if cached {
        Some(v.temp_file_cache[p])
    } else {
        found
    };
    match e {
        None => (v1, rec, Some(LinkFailure::Missing)),
        Some(e) => if e.state != UploadState::Finalized {
            (v1, rec, Some(LinkFailure::NotFinalized))
        } else {
            (with_link(v1, t, e.storage_path), rec.insert(name, e), None)
        },
    }
}

/// Linking the pairs (entry name, file path) of `es` to `t`, in that order,
/// `lookups[i]` being what the lookup of step `i` answered; the first failure
/// stops it.
pub open spec fn link_fold(
    v: PublicContentView,
    t: u128,
    es: Seq<(Seq<char>, Seq<char>)>,
    lookups: Seq<Option<PublicEntryView>>,
) -> (PublicContentView, Map<Seq<char>, PublicEntryView>, Option<LinkFailure>)
    decreases es.len(),
{
    if es.len() == 0 {
        (v, Map::empty(), None)
    } else {
        let prev = link_fold(v, t, es.drop_last(), lookups);
        if prev.2 is Some {
            prev
        } else {
            link_step(prev.0, prev.1, t, es.last().0, es.last().1, lookups[es.len() - 1])
        }
    }
}

/// Each lookup made while linking `es` answered as such a lookup may.
pub open spec fn lookups_sound(
    v: PublicContentView,
    t: u128,
    es: Seq<(Seq<char>, Seq<char>)>,
    by_hash: bool,
    lookups: Seq<Option<PublicEntryView>>,
) -> bool
    decreases es.len(),
{
    if es.len() == 0 {
        true
    } else {
        let prev = link_fold(v, t, es.drop_last(), lookups);
        &&& lookups_sound(v, t, es.drop_last(), by_hash, lookups)
        &&& (prev.2 is None && !prev.0.temp_file_cache.contains_key(es.last().1))
            ==> lookup_answer(prev.0, es.last().1, by_hash, lookups[es.len() - 1])
    }
}

/// The file paths that the pairs of `es` name.
pub open spec fn paths_of(es: Seq<(Seq<char>, Seq<char>)>) -> Set<Seq<char>> {
    Set::new(|p: Seq<char>| exists|i: int| 0 <= i < es.len() && #[trigger] es[i].1 == p)
}

/// Linking files that are all finalized uploads in the cache, each named
/// once, cannot fail: the files leave the cache and nothing else but the
/// indexes changes.
pub proof fn lemma_link_fresh_uploads(
    v: PublicContentView,
    t: u128,
    es: Seq<(Seq<char>, Seq<char>)>,
    lookups: Seq<Option<PublicEntryView>>,
)
    requires
        forall|i: int|
            0 <= i < es.len() ==> v.temp_file_cache.contains_key(#[trigger] es[i].1)
                && v.temp_file_cache[es[i].1].state == UploadState::Finalized,
        forall|i: int, j: int| 0 <= i < j < es.len() ==> #[trigger] es[i].1 != #[trigger] es[j].1,
    ensures
        link_fold(v, t, es, lookups).2 is None,
        link_fold(v, t, es, lookups).0.temp_file_cache == v.temp_file_cache.remove_keys(paths_of(es)),
        link_fold(v, t, es, lookups).0.nft_public == v.nft_public,
    decreases es.len(),
{
    if es.len() == 0 {
        assert(v.temp_file_cache.remove_keys(paths_of(es)) =~= v.temp_file_cache);
    } else {
        let init = es.drop_last();
        lemma_link_fresh_uploads(v, t, init, lookups);
        let prev = link_fold(v, t, init, lookups);
        let p = es.last().1;
        assert(!paths_of(init).contains(p)) by {
            if paths_of(init).contains(p) {
                let i = choose|i: int| 0 <= i < init.len() && #[trigger] init[i].1 == p;
                assert(es[i].1 == es[es.len() - 1].1);
            }
        }
        assert(es[es.len() - 1].1 == p);
        assert(prev.0.temp_file_cache.contains_key(p));
        assert(prev.0.temp_file_cache[p] == v.temp_file_cache[p]);
        assert(paths_of(es) =~= paths_of(init).insert(p)) by {
            assert forall|q: Seq<char>| paths_of(es).contains(q) implies paths_of(init).insert(q).contains(q)
                && (q == p || paths_of(init).contains(q)) by {
                let i = choose|i: int| 0 <= i < es.len() && #[trigger] es[i].1 == q;
                if i < es.len() - 1 {
                    assert(init[i].1 == q);
                }
            }
            assert forall|q: Seq<char>| paths_of(init).contains(q) implies paths_of(es).contains(q) by {
                let i = choose|i: int| 0 <= i < init.len() && #[trigger] init[i].1 == q;
                assert(es[i].1 == q);
            }
            assert(es[es.len() - 1].1 == p);
        }
        assert(prev.0.temp_file_cache.remove(p) =~= v.temp_file_cache.remove_keys(paths_of(es)));
    }
}

/// `es` lists the pairs of `m`, each key once.
pub open spec fn lists_pairs(es: Seq<(Seq<char>, Seq<char>)>, m: Map<Seq<char>, Seq<char>>) -> bool {
    &&& forall|i: int| 0 <= i < es.len() ==> m.contains_key(#[trigger] es[i].0) && m[es[i].0] == es[i].1
    &&& forall|k: Seq<char>| #[trigger] m.contains_key(k) ==> exists|i: int| 0 <= i < es.len() && es[i].0 == k
    &&& forall|i: int, j: int| 0 <= i < j < es.len() ==> #[trigger] es[i].0 != #[trigger] es[j].0
}

/// The system once linking `es` to `t` ended: on success the token's new
/// record holds the linked entries and is not burned.
pub open spec fn linked_system(
    v: PublicContentView,
    t: u128,
    es: Seq<(Seq<char>, Seq<char>)>,
    lookups: Seq<Option<PublicEntryView>>,
) -> PublicContentView {
    let out = link_fold(v, t, es, lookups);
    if out.2 is None {
        PublicContentView {
            nft_public: out.0.nft_public.insert(
                t,
                NftPublicRecordView { entries: out.1, burned_at_ns: None },
            ),
            ..out.0
        }
    } else {
        out.0
    }
}

/// Linking the pairs of `m` to `t` from `v` may end in `fin` with `failure`.
pub open spec fn link_outcome(
    v: PublicContentView,
    t: u128,
    m: Map<Seq<char>, Seq<char>>,
    by_hash: bool,
    fin: PublicContentView,
    failure: Option<LinkFailure>,
) -> bool {
    exists|es: Seq<(Seq<char>, Seq<char>)>, lookups: Seq<Option<PublicEntryView>>|
        #![trigger link_fold(v, t, es, lookups)]
        lists_pairs(es, m) && lookups_sound(v, t, es, by_hash, lookups) && fin == linked_system(
            v,
            t,
            es,
            lookups,
        ) && failure == link_fold(v, t, es, lookups).2
}

/// The system once appending `es` to the entries of `t` ended: on success
/// the token's record, new or not, also holds the linked entries.
pub open spec fn appended_system(
    v: PublicContentView,
    t: u128,
    es: Seq<(Seq<char>, Seq<char>)>,
    lookups: Seq<Option<PublicEntryView>>,
) -> PublicContentView {
    let out = link_fold(v, t, es, lookups);
    if out.2 is None {
        let prev = if out.0.nft_public.contains_key(t) {
            out.0.nft_public[t]
        } else {
            NftPublicRecordView { entries: Map::empty(), burned_at_ns: None }
        };
        PublicContentView {
            nft_public: out.0.nft_public.insert(
                t,
                NftPublicRecordView { entries: prev.entries.union_prefer_right(out.1), burned_at_ns: prev.burned_at_ns },
            ),
            ..out.0
        }
    } else {
        out.0
    }
}

/// Appending the pairs of `m` to `t` from `v`, files looked up by hash, may
/// end in `fin` with `failure`.
pub open spec fn append_outcome(
    v: PublicContentView,
    t: u128,
    m: Map<Seq<char>, Seq<char>>,
    fin: PublicContentView,
    failure: Option<LinkFailure>,
) -> bool {
    exists|es: Seq<(Seq<char>, Seq<char>)>, lookups: Seq<Option<PublicEntryView>>|
        #![trigger link_fold(v, t, es, lookups)]
        lists_pairs(es, m) && lookups_sound(v, t, es, true, lookups) && fin == appended_system(
            v,
            t,
            es,
            lookups,
        ) && failure == link_fold(v, t, es, lookups).2
}

/// Only the first `es.len()` lookups count.
proof fn lemma_fold_lookups(
    v: PublicContentView,
    t: u128,
    es: Seq<(Seq<char>, Seq<char>)>,
    by_hash: bool,
    l1: Seq<Option<PublicEntryView>>,
    l2: Seq<Option<PublicEntryView>>,
)
    requires
        forall|j: int| 0 <= j < es.len() ==> l1[j] == l2[j],
    ensures
        link_fold(v, t, es, l1) == link_fold(v, t, es, l2),
        lookups_sound(v, t, es, by_hash, l1) == lookups_sound(v, t, es, by_hash, l2),
    decreases es.len(),
{
    if es.len() > 0 {
        lemma_fold_lookups(v, t, es.drop_last(), by_hash, l1, l2);
        assert(l1[es.len() - 1] == l2[es.len() - 1]);
    }
}

/// After a failure nothing more happens.
proof fn lemma_fold_stops(
    v: PublicContentView,
    t: u128,
    es: Seq<(Seq<char>, Seq<char>)>,
    k: int,
    by_hash: bool,
    lookups: Seq<Option<PublicEntryView>>,
)
    requires
        0 <= k <= es.len(),
        link_fold(v, t, es.take(k), lookups).2 is Some,
        lookups_sound(v, t, es.take(k), by_hash, lookups),
    ensures
        link_fold(v, t, es, lookups) == link_fold(v, t, es.take(k), lookups),
        lookups_sound(v, t, es, by_hash, lookups),
    decreases es.len(),
{
    if es.len() == k {
        assert(es.take(k) =~= es);
    } else {
        assert(es.drop_last().take(k) =~= es.take(k));
        lemma_fold_stops(v, t, es.drop_last(), k, by_hash, lookups);
    }
}

/// What minting public content answers for a linking failure.
pub open spec fn mint_answer(failure: Option<LinkFailure>, r: Result<(), PublicContentError>) -> bool {
    match failure {
        None => r is Ok,
        Some(LinkFailure::Missing) => r matches Err(PublicContentError::NotFound),
        Some(LinkFailure::NotFinalized) => r matches Err(PublicContentError::InvalidStateTransition),
    }
}

/// What appending files answers for a linking failure.
pub open spec fn append_answer(failure: Option<LinkFailure>, r: Result<(), AppendFileError>) -> bool {
    match failure {
        None => r is Ok,
        Some(LinkFailure::Missing) => r matches Err(AppendFileError::NotFound),
        Some(LinkFailure::NotFinalized) => r matches Err(AppendFileError::InvalidStateTransition),
    }
}

impl PublicContentSystem {
    /// The entry stored at `p` of the first token that the index lists for
    /// `p`, if that token has one.
    #[verifier::loop_isolation(false)]
    pub(crate) fn find_shared_entry(&self, p: &String) -> (r: Option<&PublicEntry>)
        ensures
            match r {
                Some(e) => is_linked_entry(self@, p@, e@),
                None => !every_user_links(self@, p@),
            },
    {
        let users = match self.file_to_nfts.get(p) {
            Some(users) => users,
            None => {
                return None;
            },
        };
        if users.is_empty() {
            return None;
        }
        proof {
            users.lemma_positions();
        }
        let t0 = users.at(0);
        let record = match self.nft_public.get(t0) {
            Some(record) => record,
            None => {
                proof {
                    assert(users@.contains(t0@));
                    assert forall|name: Seq<char>| !#[trigger] linked_at(self@, p@, t0@, name) by {}
                }
                return None;
            },
        };
        let m = record.entries.len();
        let mut j: usize = 0;
        while j < m
            invariant
                m == record.entries.spec_len(),
                record.entries.inv(),
                j <= m,
                forall|k: int|
                    0 <= k < j ==> (#[trigger] record.entries.spec_value_at(k)).storage_path != p@,
            decreases m - j,
        {
            let e = record.entries.value_at(j);
            if e.storage_path.key_eq(p) {
                proof {
                    record.entries.lemma_positions();
                    let name = record.entries.spec_key_at(j as int);
                    assert(linked_at(self@, p@, t0@, name));
                }
                return Some(e);
            }
            j += 1;
        }
        proof {
            record.entries.lemma_positions();
            assert(users@.contains(t0@));
            assert forall|name: Seq<char>| !#[trigger] linked_at(self@, p@, t0@, name) by {
                if record@.entries.contains_key(name) {
                    let k = record.entries.spec_index_of(name);
                    assert(record.entries.spec_value_at(k).storage_path != p@);
                }
            }
        }
        None
    }

    /// An entry of any token whose file hash is `p`, if there is one.
    #[verifier::loop_isolation(false)]
    pub(crate) fn find_by_hash(&self, p: &String) -> (r: Option<&PublicEntry>)
        ensures
            lookup_answer(
                self@,
                p@,
                true,
                match r {
                    Some(e) => Some(e@),
                    None => None,
                },
            ),
    {
        let n = self.nft_public.len();
        let mut i: usize = 0;
        while i < n
            invariant
                n == self.nft_public.spec_len(),
                self.nft_public.inv(),
                i <= n,
                forall|a: int, name: Seq<char>|
                    0 <= a < i ==> !#[trigger] holds_hash_at(
                        self@,
                        p@,
                        self.nft_public.spec_key_at(a),
                        name,
                    ),
            decreases n - i,
        {
            proof {
                self.nft_public.lemma_positions();
            }
            let record = self.nft_public.value_at(i);
            let m = record.entries.len();
            let mut j: usize = 0;
            while j < m
                invariant
                    m == record.entries.spec_len(),
                    record.entries.inv(),
                    j <= m,
                    forall|k: int|
                        0 <= k < j ==> (#[trigger] record.entries.spec_value_at(k)).hash != p@,
                decreases m - j,
            {
                let e = record.entries.value_at(j);
                if e.hash.key_eq(p) {
                    proof {
                        record.entries.lemma_positions();
                        self.nft_public.lemma_positions();
                        let t = self.nft_public.spec_key_at(i as int);
                        let name = record.entries.spec_key_at(j as int);
                        assert(self@.nft_public.contains_key(t));
                        assert(self@.nft_public[t] == record@);
                        assert(record@.entries.contains_key(name));
                        assert(holds_hash_at(self@, p@, t, name));
                    }
                    return Some(e);
                }
                j += 1;
            }
            proof {
                record.entries.lemma_positions();
                assert forall|name: Seq<char>| !#[trigger] holds_hash_at(
                    self@,
                    p@,
                    self.nft_public.spec_key_at(i as int),
                    name,
                ) by {
                    if record@.entries.contains_key(name) {
                        let k = record.entries.spec_index_of(name);
                        assert(record.entries.spec_value_at(k).hash != p@);
                    }
                }
            }
            i += 1;
        }
        proof {
            self.nft_public.lemma_positions();
            assert forall|t: u128, name: Seq<char>| !#[trigger] holds_hash_at(self@, p@, t, name) by {
                if self@.nft_public.contains_key(t) {
                    let a = self.nft_public.spec_index_of(t);
                    assert(!holds_hash_at(self@, p@, self.nft_public.spec_key_at(a), name));
                }
            }
        }
        None
    }
}

impl PublicContentSystem {
    /// Links the pairs (entry name, file path) of `entries`, in the order they
    /// are held, to the token `t`, looking up by hash (`by_hash`) or through the
    /// index the files that are not in the cache; stops at the first failure.
    #[verifier::loop_isolation(false)]
    #[verifier::rlimit(40)]
    fn resolve_links(&mut self, entries: &KeyedMap<String, String>, t: u128, by_hash: bool) -> (r: (
        Option<LinkFailure>,
        KeyedMap<String, PublicEntry>,
    ))
        ensures
            exists|es: Seq<(Seq<char>, Seq<char>)>, lookups: Seq<Option<PublicEntryView>>|
                #![trigger link_fold(old(self)@, t, es, lookups)]
                lists_pairs(es, entries@) && lookups_sound(old(self)@, t, es, by_hash, lookups)
                    && link_fold(old(self)@, t, es, lookups) == (final(self)@, r.1@, r.0),
    {
        proof {
            use_type_invariant(entries);
            entries.lemma_positions();
        }
        let n = entries.len();
        let ghost es = Seq::new(
            n as nat,
            |i: int| (entries.spec_key_at(i), entries.spec_value_at(i)),
        );
        let ghost v0 = self@;
        let ghost mut lookups: Seq<Option<PublicEntryView>> = Seq::empty();
        proof {
            assert(es.take(0) =~= Seq::<(Seq<char>, Seq<char>)>::empty());
            assert(lists_pairs(es, entries@)) by {
                assert forall|k: Seq<char>| #[trigger] entries@.contains_key(k) implies exists|i: int|
                    0 <= i < es.len() && es[i].0 == k by {
                    let i = entries.spec_index_of(k);
                    assert(es[i].0 == k);
                }
            }
        }
        let mut rec: KeyedMap<String, PublicEntry> = KeyedMap::new();
        let mut i: usize = 0;
        while i < n
            invariant
                n == entries.spec_len(),
                entries.inv(),
                i <= n,
                es.len() == n,
                lookups.len() == i,
                link_fold(v0, t, es.take(i as int), lookups) == (
                    self@,
                    rec@,
                    None::<LinkFailure>,
                ),
                lookups_sound(v0, t, es.take(i as int), by_hash, lookups),
                self@.nft_public == v0.nft_public,
            decreases n - i,
        {
            let name = entries.key_at(i);
            let path = entries.value_at(i);
            let ghost v = self@;
            let ghost prefix = es.take(i as int);
            let ghost next = es.take(i + 1);
            proof {
                assert(next.drop_last() =~= prefix);
                assert(next.last() == (name@, path@));
            }
            let ghost mut lk: Option<PublicEntryView> = None;
            let found: Option<PublicEntry> = match self.temp_file_cache.remove(path) {
                Some(e) => Some(e),
                None => {
                    proof {
                        assert(self@.temp_file_cache =~= v.temp_file_cache);
                        assert(self@ == v);
                    }
                    let hit = if by_hash {
                        self.find_by_hash(path)
                    } else {
                        self.find_shared_entry(path)
                    };
                    match hit {
                        Some(e) => {
                            proof {
                                lk = Some(e@);
                            }
                            Some(e.deep_copy())
                        },
                        None => None,
                    }
                },
            };
            let ghost before = lookups;
            proof {
                lookups = lookups.push(lk);
                lemma_fold_lookups(v0, t, prefix, by_hash, before, lookups);
                assert(link_fold(v0, t, next, lookups) == link_step(
                    v,
                    rec@,
                    t,
                    name@,
                    path@,
                    lk,
                ));
                if !v.temp_file_cache.contains_key(path@) {
                    assert(lookup_answer(v, path@, by_hash, lk));
                }
                assert(lookups_sound(v0, t, next, by_hash, lookups));
            }
            let entry = match found {
                None => {
                    proof {
                        lemma_fold_stops(v0, t, es, i + 1, by_hash, lookups);
                    }
                    return (Some(LinkFailure::Missing), rec);
                },
                Some(e) => e,
            };
            if entry.state != UploadState::Finalized {
                proof {
                    lemma_fold_stops(v0, t, es, i + 1, by_hash, lookups);
                }
                return (Some(LinkFailure::NotFinalized), rec);
            }
            let ghost v1 = self@;
            let file_identity = entry.storage_path.clone();
            let mut users = match self.file_to_nfts.remove(&file_identity) {
                Some(users) => users,
                None => KeyedSet::new(),
            };
            users.insert(t);
            self.file_to_nfts.insert(file_identity.clone(), users);
            let mut files = match self.nft_to_files.remove(&t) {
                Some(files) => files,
                None => KeyedSet::new(),
            };
            files.insert(file_identity);
            self.nft_to_files.insert(t, files);
            let ghost ev = entry@;
            rec.insert(name.clone(), entry);
            proof {
                assert(self@.file_to_nfts =~= with_link(v1, t, ev.storage_path).file_to_nfts);
                assert(self@.nft_to_files =~= with_link(v1, t, ev.storage_path).nft_to_files);
                assert(self@ == with_link(v1, t, ev.storage_path));
            }
            i += 1;
        }
        proof {
            assert(es.take(n as int) =~= es);
        }
        (None, rec)
    }

    /// Links the pairs (entry name, file path) of `entries`, in the order they
    /// are held, to the token `t`, looking up by hash (`by_hash`) or through the
    /// index the files that are not in the cache; stops at the first failure.
    fn link_entries(&mut self, entries: &KeyedMap<String, String>, t: u128, by_hash: bool) -> (r:
        Option<LinkFailure>)
        ensures
            link_outcome(old(self)@, t, entries@, by_hash, final(self)@, r),
    {
        let (failure, rec) = self.resolve_links(entries, t, by_hash);
        if failure.is_none() {
            self.nft_public.insert(t, NftPublicRecord { entries: rec, burned_at_ns: None });
        }
        failure
    }

    /// Appends the pairs (entry name, file path) of `entries` to the entries
    /// of the token `t`, a record being made for a token without one: each
    /// file leaves the cache, or is looked up by hash among the tokens'
    /// entries, must be finalized, and is recorded in both indexes; the first
    /// failure stops the work, keeping what was done before it.
    pub fn append_entries(&mut self, entries: &KeyedMap<String, String>, t: u128) -> (r: Option<LinkFailure>)
        ensures
            append_outcome(old(self)@, t, entries@, final(self)@, r),
    {
        let (failure, rec) = self.resolve_links(entries, t, true);
        let ghost (es, lookups) = choose|es: Seq<(Seq<char>, Seq<char>)>, lookups: Seq<Option<PublicEntryView>>|
            #![trigger link_fold(old(self)@, t, es, lookups)]
            lists_pairs(es, entries@) && lookups_sound(old(self)@, t, es, true, lookups) && link_fold(
                old(self)@,
                t,
                es,
                lookups,
            ) == (self@, rec@, failure);
        let ghost mid = self@;
        if failure.is_none() {
            let mut record = match self.nft_public.remove(&t) {
                Some(record) => record,
                None => NftPublicRecord::new(),
            };
            let ghost prev = record@;
            record.entries.merge_from(&rec);
            self.nft_public.insert(t, record);
            proof {
                let expected = appended_system(old(self)@, t, es, lookups);
                assert(prev == (if mid.nft_public.contains_key(t) {
                    mid.nft_public[t]
                } else {
                    NftPublicRecordView { entries: Map::empty(), burned_at_ns: None }
                }));
                assert(self@.nft_public =~= expected.nft_public);
                assert(self@ == expected);
            }
        }
        failure
    }

    /// Gives the new token `token_id` the public entries `entries_to_mint_paths`
    /// (entry name to file path): each file must be a finalized upload, cached
    /// or already held by a token.
    pub fn mint_public_content(
        &mut self,
        entries_to_mint_paths: KeyedMap<String, String>,
        token_id: u128,
    ) -> (r: Result<(), PublicContentError>)
        ensures
            old(self)@.nft_public.contains_key(token_id) ==> (r matches Err(
                PublicContentError::FileAlreadyExists,
            )) && final(self)@ == old(self)@,
            !old(self)@.nft_public.contains_key(token_id) ==> exists|failure: Option<LinkFailure>|
                link_outcome(
                    old(self)@,
                    token_id,
                    entries_to_mint_paths@,
                    false,
                    final(self)@,
                    failure,
                ) && mint_answer(failure, r),
    {
        if self.nft_public.contains_key(&token_id) {
            return Err(PublicContentError::FileAlreadyExists);
        }
        let failure = self.link_entries(&entries_to_mint_paths, token_id, false);
        proof {
            assert(link_outcome(old(self)@, token_id, entries_to_mint_paths@, false, self@, failure));
        }
        let r = match failure {
            None => Ok(()),
            Some(LinkFailure::Missing) => Err(PublicContentError::NotFound),
            Some(LinkFailure::NotFinalized) => Err(PublicContentError::InvalidStateTransition),
        };
        proof {
            assert(mint_answer(failure, r));
        }
        r
    }

    /// Gives the token `token_id`, which has no public record yet, the entries
    /// `entries_to_append_paths` (entry name to file path): each file must be a
    /// finalized upload, cached or held by a token under that hash.
    pub fn append_register(
        &mut self,
        entries_to_append_paths: KeyedMap<String, String>,
        token_id: u128,
    ) -> (r: Result<(), AppendFileError>)
        ensures
            old(self)@.nft_public.contains_key(token_id) ==> (r matches Err(
                AppendFileError::FileAlreadyExists,
            )) && final(self)@ == old(self)@,
            !old(self)@.nft_public.contains_key(token_id) ==> exists|failure: Option<LinkFailure>|
                link_outcome(
                    old(self)@,
                    token_id,
                    entries_to_append_paths@,
                    true,
                    final(self)@,
                    failure,
                ) && append_answer(failure, r),
    {
        if self.nft_public.contains_key(&token_id) {
            return Err(AppendFileError::FileAlreadyExists);
        }
        let failure = self.link_entries(&entries_to_append_paths, token_id, true);
        proof {
            assert(link_outcome(old(self)@, token_id, entries_to_append_paths@, true, self@, failure));
        }
        let r = match failure {
            None => Ok(()),
            Some(LinkFailure::Missing) => Err(AppendFileError::NotFound),
            Some(LinkFailure::NotFinalized) => Err(AppendFileError::InvalidStateTransition),
        };
        proof {
            assert(append_answer(failure, r));
        }
        r
    }
}

} // verus!
