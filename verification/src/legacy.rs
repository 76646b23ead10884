//! Uploads tracked by the canister's own file index, from before the content
//! systems existed, and the daily collection of abandoned uploads.

use vstd::prelude::*;
use crate::keyed::{DeepCopy, KeyedMap, MapKey};
use crate::principal::PrincipalId;
use crate::private_content::{PrivateContentSystem, PrivateContentView, Sha256Hash};
use crate::public_content::{
    PendingUpload, PendingUploadView, PublicContentSystem, PublicContentView, PublicEntry,
    PublicEntryView,
};
use crate::upload::{UploadState, CHUNK_SIZE};

verus! {

/// An upload in the canister's own file index.
pub struct InternalFile {
    pub init_timestamp: u64,
    pub state: UploadState,
    pub canister: PrincipalId,
    pub path: String,
}

pub struct InternalFileView {
    pub init_timestamp: u64,
    pub state: UploadState,
    pub canister: Seq<u8>,
    pub path: Seq<char>,
}

impl View for InternalFile {
    type V = InternalFileView;

    open spec fn view(&self) -> InternalFileView {
        InternalFileView {
            init_timestamp: self.init_timestamp,
            state: self.state,
            canister: self.canister@,
            path: self.path@,
        }
    }
}

impl DeepCopy for InternalFile {
    fn deep_copy(&self) -> (c: Self) {
        InternalFile {
            init_timestamp: self.init_timestamp,
            state: self.state,
            canister: self.canister.deep_copy(),
            path: self.path.clone(),
        }
    }
}

/// The public entry a legacy upload at `path` becomes: finalized uploads stay
/// finalized, any other keeps an empty pending upload from its start time;
/// its size was never recorded.
pub open spec fn legacy_entry(path: Seq<char>, f: InternalFileView) -> PublicEntryView {
    PublicEntryView {
        state: f.state,
        hash: path,
        file_size: 0,
        storage_canister_id: f.canister,
        storage_path: f.path,
        pending_upload: if f.state == UploadState::Finalized {
            None
        } else {
            Some(
                PendingUploadView {
                    expected_chunks: 0,
                    received_chunks: Map::empty(),
                    chunk_size: CHUNK_SIZE,
                    timestamp_ns: f.init_timestamp,
                },
            )
        },
        format_version: 1,
        created_at_ns: f.init_timestamp,
    }
}

/// The public content once the legacy uploads `internal` are migrated: each
/// path the public content does not know yet gets its legacy entry cached.
pub open spec fn migrated(v: PublicContentView, internal: Map<Seq<char>, InternalFileView>) -> PublicContentView {
    PublicContentView {
        temp_file_cache: Map::new(
            |p: Seq<char>|
                v.temp_file_cache.contains_key(p) || (internal.contains_key(p)
                    && !v.file_to_nfts.contains_key(p)),
            |p: Seq<char>|
                if v.temp_file_cache.contains_key(p) {
                    v.temp_file_cache[p]
                } else {
                    legacy_entry(p, internal[p])
                },
        ),
        ..v
    }
}

/// The legacy uploads that the public content does not know yet.
pub open spec fn unknown_legacy_paths(v: PublicContentView, internal: Map<Seq<char>, InternalFileView>) -> Set<
    Seq<char>,
> {
    Set::new(
        |p: Seq<char>|
            internal.contains_key(p) && !v.temp_file_cache.contains_key(p)
                && !v.file_to_nfts.contains_key(p),
    )
}

/// Makes the uploads of the canister's own file index visible to the upload
/// endpoints: every path that the public content does not know yet is cached
/// as its legacy entry. Answers how many paths were migrated.
#[verifier::loop_isolation(false)]
pub fn migrate_internal_filestorage_into_public_content(
    public: &mut PublicContentSystem,
    internal: &KeyedMap<String, InternalFile>,
) -> (migrated_count: usize)
    ensures
        final(public)@ == migrated(old(public)@, internal@),
        migrated_count == unknown_legacy_paths(old(public)@, internal@).len(),
{
    proof {
        use_type_invariant(internal);
        internal.lemma_positions();
    }
    let ghost v0 = public@;
    let n = internal.len();
    let mut count: usize = 0;
    let mut i: usize = 0;
    let ghost done = Set::<Seq<char>>::empty();
    proof {
        assert(done =~= Set::new(
            |p: Seq<char>| exists|j: int| 0 <= j < 0 && internal.spec_key_at(j) == p,
        ));
        assert(internal@.restrict(done) =~= Map::<Seq<char>, InternalFileView>::empty());
        assert(migrated(v0, internal@.restrict(done)).temp_file_cache =~= v0.temp_file_cache);
        assert(unknown_legacy_paths(v0, internal@.restrict(done)) =~= Set::<Seq<char>>::empty());
    }
    while i < n
        invariant
            n == internal.spec_len(),
            internal.inv(),
            i <= n,
            count <= i,
            done == Set::new(
                |p: Seq<char>| exists|j: int| 0 <= j < i && internal.spec_key_at(j) == p,
            ),
            public@ == migrated(v0, internal@.restrict(done)),
            count == unknown_legacy_paths(v0, internal@.restrict(done)).len(),
            unknown_legacy_paths(v0, internal@.restrict(done)).finite(),
        decreases n - i,
    {
        proof {
            internal.lemma_positions();
        }
        let path = internal.key_at(i);
        let f = internal.value_at(i);
        let ghost p = path@;
        let ghost next = done.insert(p);
        proof {
            assert(!done.contains(p)) by {
                if done.contains(p) {
                    let j = choose|j: int| 0 <= j < i && internal.spec_key_at(j) == p;
                    assert(internal.spec_key_at(j) != internal.spec_key_at(i as int));
                }
            }
            assert(next =~= Set::new(
                |q: Seq<char>| exists|j: int| 0 <= j < i + 1 && internal.spec_key_at(j) == q,
            ));
            assert(internal@.contains_key(internal.spec_key_at(i as int)));
            assert(internal@.contains_key(p) && internal@[p] == f@);
        }
        let known = public.get_public_file_by_path(path.as_str()).is_some()
            || public.file_to_nfts.contains_key(path);
        proof {
            assert(known == (v0.temp_file_cache.contains_key(p) || v0.file_to_nfts.contains_key(p)));
        }
        let ghost before = unknown_legacy_paths(v0, internal@.restrict(done));
        if !known {
            let pending_upload = if f.state == UploadState::Finalized {
                None
            } else {
                Some(
                    PendingUpload {
                        expected_chunks: 0,
                        received_chunks: KeyedMap::new(),
                        chunk_size: CHUNK_SIZE,
                        timestamp_ns: f.init_timestamp,
                    },
                )
            };
            let entry = PublicEntry {
                state: f.state,
                hash: path.clone(),
                file_size: 0,
                storage_canister_id: f.canister.deep_copy(),
                storage_path: f.path.clone(),
                pending_upload,
                format_version: 1,
                created_at_ns: f.init_timestamp,
            };
            public.temp_file_cache.insert(path.clone(), entry);
            proof {
                assert(unknown_legacy_paths(v0, internal@.restrict(next)) =~= before.insert(p));
                assert(public@.temp_file_cache =~= migrated(v0, internal@.restrict(next)).temp_file_cache);
            }
            count += 1;
        } else {
            proof {
                assert(unknown_legacy_paths(v0, internal@.restrict(next)) =~= before);
                assert(public@.temp_file_cache =~= migrated(v0, internal@.restrict(next)).temp_file_cache);
            }
        }
        proof {
            done = next;
        }
        i += 1;
    }
    proof {
        assert(internal@.restrict(done) =~= internal@) by {
            assert forall|q: Seq<char>| internal@.contains_key(q) implies done.contains(q) by {
                let j = internal.spec_index_of(q);
                assert(internal.spec_key_at(j) == q);
            }
        }
    }
    count
}

/// Migrating twice migrates nothing the second time; re-running the
/// migration on every upgrade is safe.
pub proof fn lemma_migration_idempotent(v: PublicContentView, internal: Map<Seq<char>, InternalFileView>)
    ensures
        migrated(migrated(v, internal), internal) == migrated(v, internal),
        unknown_legacy_paths(migrated(v, internal), internal) == Set::<Seq<char>>::empty(),
{
    assert(migrated(migrated(v, internal), internal).temp_file_cache =~= migrated(
        v,
        internal,
    ).temp_file_cache);
    assert(unknown_legacy_paths(migrated(v, internal), internal) =~= Set::<Seq<char>>::empty());
}

/// How long an upload may stay pending before it is abandoned: one day, in
/// nanoseconds.
pub const STALE_UPLOAD_THRESHOLD_NS: u64 = 86_400_000_000_000;

/// A pending upload started at `started` is abandoned at `now`.
pub open spec fn is_stale(started: u64, now: u64) -> bool {
    started + STALE_UPLOAD_THRESHOLD_NS < now
}

/// The cached public uploads abandoned at `now`: (storage canister, storage
/// path, cache key).
pub open spec fn stale_public(v: PublicContentView, now: u64) -> Set<(Seq<u8>, Seq<char>, Seq<char>)> {
    Set::new(
        |x: (Seq<u8>, Seq<char>, Seq<char>)|
            v.temp_file_cache.contains_key(x.2) && v.temp_file_cache[x.2].pending_upload is Some
                && is_stale(v.temp_file_cache[x.2].pending_upload.unwrap().timestamp_ns, now) && x.0
                == v.temp_file_cache[x.2].storage_canister_id && x.1
                == v.temp_file_cache[x.2].storage_path,
    )
}

/// The views of a list of stale public uploads.
pub open spec fn stale_public_view(s: Seq<(PrincipalId, String, String)>) -> Seq<(Seq<u8>, Seq<char>, Seq<char>)> {
    s.map_values(|x: (PrincipalId, String, String)| (x.0@, x.1@, x.2@))
}

/// The cached public uploads abandoned at `now`, each once, for the garbage
/// collector to cancel in storage and drop from the cache.
#[verifier::loop_isolation(false)]
pub fn stale_public_uploads(public: &PublicContentSystem, now: u64) -> (r: Vec<(PrincipalId, String, String)>)
    ensures
        stale_public_view(r@).no_duplicates(),
        stale_public_view(r@).to_set() == stale_public(public@, now),
{
    let mut out: Vec<(PrincipalId, String, String)> = Vec::new();
    let n = public.temp_file_cache.len();
    let mut i: usize = 0;
    while i < n
        invariant
            n == public.temp_file_cache.spec_len(),
            public.temp_file_cache.inv(),
            i <= n,
            stale_public_view(out@).no_duplicates(),
            forall|a: int|
                0 <= a < out@.len() ==> exists|j: int|
                    0 <= j < i && (#[trigger] out@[a]).2@ == public.temp_file_cache.spec_key_at(j),
            stale_public_view(out@).to_set() == Set::new(
                |x: (Seq<u8>, Seq<char>, Seq<char>)|
                    stale_public(public@, now).contains(x) && exists|j: int|
                        0 <= j < i && x.2 == public.temp_file_cache.spec_key_at(j),
            ),
        decreases n - i,
    {
        proof {
            public.temp_file_cache.lemma_positions();
        }
        let key = public.temp_file_cache.key_at(i);
        let e = public.temp_file_cache.value_at(i);
        let ghost k = key@;
        let ghost before = stale_public_view(out@);
        proof {
            assert(public@.temp_file_cache.contains_key(public.temp_file_cache.spec_key_at(i as int)));
            assert(public@.temp_file_cache.contains_key(k) && public@.temp_file_cache[k] == e@);
        }
        let stale = match &e.pending_upload {
            Some(pending) => (pending.timestamp_ns as u128) + (STALE_UPLOAD_THRESHOLD_NS as u128)
                < now as u128,
            None => false,
        };
        if stale {
            out.push((e.storage_canister_id.key_copy(), e.storage_path.clone(), key.clone()));
            proof {
                let x = (e@.storage_canister_id, e@.storage_path, k);
                assert(stale_public_view(out@) =~= before.push(x));
                assert(!before.contains(x)) by {
                    if before.contains(x) {
                        let a = choose|a: int| 0 <= a < before.len() && before[a] == x;
                        assert(out@[a].2@ == k);
                        let j = choose|j: int| 0 <= j < i && (#[trigger] out@[a]).2@ == public.temp_file_cache.spec_key_at(j);
                        assert(public.temp_file_cache.spec_key_at(j) != public.temp_file_cache.spec_key_at(i as int));
                    }
                }
                before.lemma_push_to_set_commute(x);
                assert(stale_public_view(out@).to_set() =~= Set::new(
                    |x: (Seq<u8>, Seq<char>, Seq<char>)|
                        stale_public(public@, now).contains(x) && exists|j: int|
                            0 <= j < i + 1 && x.2 == public.temp_file_cache.spec_key_at(j),
                )) by {
                    assert forall|y: (Seq<u8>, Seq<char>, Seq<char>)| stale_public(public@, now).contains(y) && y.2 == k implies y == x by {}
                }
            }
        } else {
            proof {
                assert(stale_public_view(out@).to_set() =~= Set::new(
                    |x: (Seq<u8>, Seq<char>, Seq<char>)|
                        stale_public(public@, now).contains(x) && exists|j: int|
                            0 <= j < i + 1 && x.2 == public.temp_file_cache.spec_key_at(j),
                )) by {
                    assert forall|y: (Seq<u8>, Seq<char>, Seq<char>)| stale_public(public@, now).contains(y) implies y.2 != k by {}
                }
            }
        }
        i += 1;
    }
    proof {
        public.temp_file_cache.lemma_positions();
        assert(stale_public_view(out@).to_set() =~= stale_public(public@, now)) by {
            assert forall|y: (Seq<u8>, Seq<char>, Seq<char>)| stale_public(public@, now).contains(y) implies exists|j: int|
                0 <= j < n && y.2 == public.temp_file_cache.spec_key_at(j) by {
                let j = public.temp_file_cache.spec_index_of(y.2);
                assert(public.temp_file_cache.spec_key_at(j) == y.2);
            }
        }
    }
    out
}

/// The cached private uploads abandoned at `now`: (storage canister, storage
/// path, plaintext hash).
pub open spec fn stale_private(v: PrivateContentView, now: u64) -> Set<(Seq<u8>, Seq<char>, Seq<u8>)> {
    Set::new(
        |x: (Seq<u8>, Seq<char>, Seq<u8>)|
            v.premint_cache.contains_key(x.2) && v.premint_cache[x.2].pending_upload is Some
                && is_stale(v.premint_cache[x.2].pending_upload.unwrap().timestamp_ns, now) && x.0
                == v.premint_cache[x.2].storage_canister_id && x.1 == v.premint_cache[x.2].storage_path,
    )
}

/// The views of a list of stale private uploads.
pub open spec fn stale_private_view(s: Seq<(PrincipalId, String, Sha256Hash)>) -> Seq<(Seq<u8>, Seq<char>, Seq<u8>)> {
    s.map_values(|x: (PrincipalId, String, Sha256Hash)| (x.0@, x.1@, x.2@))
}

/// The cached private uploads abandoned at `now`, each once, for the garbage
/// collector to cancel in storage and drop from the cache.
#[verifier::loop_isolation(false)]
pub fn stale_private_uploads(private: &PrivateContentSystem, now: u64) -> (r: Vec<(PrincipalId, String, Sha256Hash)>)
    ensures
        stale_private_view(r@).no_duplicates(),
        stale_private_view(r@).to_set() == stale_private(private@, now),
{
    let mut out: Vec<(PrincipalId, String, Sha256Hash)> = Vec::new();
    let n = private.premint_cache.len();
    let mut i: usize = 0;
    while i < n
        invariant
            n == private.premint_cache.spec_len(),
            private.premint_cache.inv(),
            i <= n,
            stale_private_view(out@).no_duplicates(),
            forall|a: int|
                0 <= a < out@.len() ==> exists|j: int|
                    0 <= j < i && (#[trigger] out@[a]).2@ == private.premint_cache.spec_key_at(j),
            stale_private_view(out@).to_set() == Set::new(
                |x: (Seq<u8>, Seq<char>, Seq<u8>)|
                    stale_private(private@, now).contains(x) && exists|j: int|
                        0 <= j < i && x.2 == private.premint_cache.spec_key_at(j),
            ),
        decreases n - i,
    {
        proof {
            private.premint_cache.lemma_positions();
        }
        let key = private.premint_cache.key_at(i);
        let e = private.premint_cache.value_at(i);
        let ghost k = key@;
        let ghost before = stale_private_view(out@);
        proof {
            assert(private@.premint_cache.contains_key(private.premint_cache.spec_key_at(i as int)));
            assert(private@.premint_cache.contains_key(k) && private@.premint_cache[k] == e@);
        }
        let stale = match &e.pending_upload {
            Some(pending) => (pending.timestamp_ns as u128) + (STALE_UPLOAD_THRESHOLD_NS as u128)
                < now as u128,
            None => false,
        };
        if stale {
            out.push((e.storage_canister_id.key_copy(), e.storage_path.clone(), *key));
            proof {
                let x = (e@.storage_canister_id, e@.storage_path, k);
                assert(stale_private_view(out@) =~= before.push(x));
                assert(!before.contains(x)) by {
                    if before.contains(x) {
                        let a = choose|a: int| 0 <= a < before.len() && before[a] == x;
                        assert(out@[a].2@ == k);
                        let j = choose|j: int| 0 <= j < i && (#[trigger] out@[a]).2@ == private.premint_cache.spec_key_at(j);
                        assert(private.premint_cache.spec_key_at(j) != private.premint_cache.spec_key_at(i as int));
                    }
                }
                before.lemma_push_to_set_commute(x);
                assert(stale_private_view(out@).to_set() =~= Set::new(
                    |x: (Seq<u8>, Seq<char>, Seq<u8>)|
                        stale_private(private@, now).contains(x) && exists|j: int|
                            0 <= j < i + 1 && x.2 == private.premint_cache.spec_key_at(j),
                )) by {
                    assert forall|y: (Seq<u8>, Seq<char>, Seq<u8>)| stale_private(private@, now).contains(y) && y.2 == k implies y == x by {}
                }
            }
        } else {
            proof {
                assert(stale_private_view(out@).to_set() =~= Set::new(
                    |x: (Seq<u8>, Seq<char>, Seq<u8>)|
                        stale_private(private@, now).contains(x) && exists|j: int|
                            0 <= j < i + 1 && x.2 == private.premint_cache.spec_key_at(j),
                )) by {
                    assert forall|y: (Seq<u8>, Seq<char>, Seq<u8>)| stale_private(private@, now).contains(y) implies y.2 != k by {}
                }
            }
        }
        i += 1;
    }
    proof {
        private.premint_cache.lemma_positions();
        assert(stale_private_view(out@).to_set() =~= stale_private(private@, now)) by {
            assert forall|y: (Seq<u8>, Seq<char>, Seq<u8>)| stale_private(private@, now).contains(y) implies exists|j: int|
                0 <= j < n && y.2 == private.premint_cache.spec_key_at(j) by {
                let j = private.premint_cache.spec_index_of(y.2);
                assert(private.premint_cache.spec_key_at(j) == y.2);
            }
        }
    }
    out
}

} // verus!
