//! The decisions the management endpoints make before they touch the ledger
//! or a storage canister: whether a mint batch fits the collection's limits,
//! whether the content a mint or an append names may be used, where an
//! upload stands, and what burning a token removes.

use vstd::prelude::*;
use crate::access::{construct_canonical_identity, is_canonical_identity, Readers};
use crate::keyed::{KeyedMap, KeyedSet, MapKey};
use crate::principal::{bytes_equal, PrincipalId};
use crate::private_content::{
    PrivateContentStatus, PrivateContentSystem, PrivateContentView, Sha256Hash,
    MAX_PRIVATE_CONTENT_SIZE,
};
use crate::private_laws::lemma_canonical_identity_determined;
use crate::public_content::{path_lookup, PublicContentSystem, PublicContentView, PublicEntry, PublicEntryView};
use crate::public_links::{holds_hash_at, lists_pairs, lookup_answer, LinkFailure};
use crate::text::{chars_of, push_all, string_from_chars};
use crate::private_content::{with_chunk, PendingUploadView, PrivateEntryView};
use crate::text::seq_starts_with;
use crate::upload::{
    AppendFileError, CancelUploadError, FinalizeUploadError, StoreChunkError, UploadState, CHUNK_SIZE,
};

verus! {

broadcast use vstd::string::group_string_axioms;

/// The largest memo when the collection sets none.
pub const DEFAULT_MAX_MEMO_SIZE: u128 = 1_000_000;

/// The largest mint batch when the collection sets none.
pub const DEFAULT_MAX_UPDATE_BATCH_SIZE: u128 = 100;

/// The supply cap when the collection sets none.
pub const DEFAULT_MAX_SUPPLY_CAP: u128 = 10_000;

/// Why a mint failed.
#[derive(Debug)]
pub enum MintError {
    ConcurrentManagementCall,
    ExceedMaxAllowedSupplyCap,
    InvalidMemo,
    StorageCanisterError(String),
}

/// The hexadecimal digit of `d`, lower case.
pub open spec fn hex_digit(d: int) -> char {
    if d < 10 {
        ((48 + d) as u32) as char
    } else {
        ((87 + d) as u32) as char
    }
}

/// Lower-case hexadecimal text of `bytes`, two digits per byte.
pub open spec fn hex_text(bytes: Seq<u8>) -> Seq<char>
    decreases bytes.len(),
{
    if bytes.len() == 0 {
        Seq::empty()
    } else {
        hex_text(bytes.drop_last()) + seq![
            hex_digit(bytes.last() as int / 16),
            hex_digit(bytes.last() as int % 16),
        ]
    }
}

/// `hex::encode`: the lower-case hexadecimal text of `bytes`.
#[verifier::external_body]
pub(crate) fn hex_encode(bytes: &[u8]) -> (t: String)
    ensures
        t@ == hex_text(bytes@),
{
    hex::encode(bytes)
}

/// Whether `memo` fits the collection's memo size limit (`max_memo_size`,
/// or `DEFAULT_MAX_MEMO_SIZE` when the collection sets none).
pub fn check_memo(memo: &Option<Vec<u8>>, max_memo_size: Option<u128>) -> (r: Result<(), String>)
    requires
        memo is Some ==> match max_memo_size {
            Some(n) => n <= usize::MAX,
            None => DEFAULT_MAX_MEMO_SIZE <= usize::MAX,
        },
    ensures
        match memo {
            None => r is Ok,
            Some(m) => {
                let max = match max_memo_size {
                    Some(n) => n,
                    None => DEFAULT_MAX_MEMO_SIZE,
                };
                if m@.len() > max {
                    r matches Err(e) && e@ == "Exceeds Max Memo Size"@
                } else {
                    r is Ok
                }
            },
        },
{
    match memo {
        Some(m) => {
            let max = match max_memo_size {
                Some(n) => n,
                None => DEFAULT_MAX_MEMO_SIZE,
            };
            let max_memo_size: usize = max as usize;
            if m.len() > max_memo_size {
                return Err("Exceeds Max Memo Size".to_string());
            }
            Ok(())
        },
        None => Ok(()),
    }
}

/// The largest batch a mint accepts: the collection's setting when it fits a
/// `u64`, else the default.
pub open spec fn batch_limit(max_update_batch_size: Option<u128>) -> int {
    match max_update_batch_size {
        Some(n) => if n <= u64::MAX {
            n as int
        } else {
            DEFAULT_MAX_UPDATE_BATCH_SIZE as int
        },
        None => DEFAULT_MAX_UPDATE_BATCH_SIZE as int,
    }
}

/// Whether a batch of `batch_len` mints fits the batch limit and the supply
/// cap (`supply_cap`, or `DEFAULT_MAX_SUPPLY_CAP`), with `token_count` tokens
/// already minted.
pub fn check_mint_batch(
    batch_len: usize,
    max_update_batch_size: Option<u128>,
    supply_cap: Option<u128>,
    token_count: u64,
) -> (r: Result<(), MintError>)
    ensures
        r is Ok <==> batch_len <= batch_limit(max_update_batch_size) && token_count + batch_len
            <= match supply_cap {
            Some(c) => c,
            None => DEFAULT_MAX_SUPPLY_CAP,
        },
        r is Err ==> r matches Err(MintError::ExceedMaxAllowedSupplyCap),
{
    let limit: u128 = match max_update_batch_size {
        Some(n) => if n <= u64::MAX as u128 {
            n
        } else {
            DEFAULT_MAX_UPDATE_BATCH_SIZE
        },
        None => DEFAULT_MAX_UPDATE_BATCH_SIZE,
    };
    if batch_len as u128 > limit {
        return Err(MintError::ExceedMaxAllowedSupplyCap);
    }
    let cap = match supply_cap {
        Some(c) => c,
        None => DEFAULT_MAX_SUPPLY_CAP,
    };
    if (token_count as u128) + (batch_len as u128) > cap {
        return Err(MintError::ExceedMaxAllowedSupplyCap);
    }
    Ok(())
}

/// The plaintext hashes of the pairs `es`.
pub open spec fn hashes_of(es: Seq<(Seq<char>, Seq<u8>)>) -> Set<Seq<u8>> {
    Set::new(|h: Seq<u8>| exists|j: int| 0 <= j < es.len() && #[trigger] es[j].1 == h)
}

/// What is wrong with minting the private entry `name` of plaintext `hash`
/// for `owner` with the default readers `defaults`, the hashes in `seen`
/// being already taken by the batch; `None` when nothing is.
pub open spec fn private_mint_problem(
    v: PrivateContentView,
    owner: Seq<u8>,
    defaults: Map<Seq<u8>, crate::access::ReaderInfoView>,
    seen: Set<Seq<u8>>,
    name: Seq<char>,
    hash: Seq<u8>,
) -> Option<Seq<char>> {
    if seen.contains(hash) {
        Some("Duplicate private content hash '"@ + hex_text(hash) + "' in batch"@)
    } else if !v.premint_cache.contains_key(hash) {
        Some(
            "Private entry '"@ + name + "' with hash '"@ + hex_text(hash)
                + "' not found in premint cache"@,
        )
    } else {
        let e = v.premint_cache[hash];
        if e.status != PrivateContentStatus::PendingMinting && e.status
            != PrivateContentStatus::Active {
            Some("Private entry '"@ + name + "' is not in a valid state for minting"@)
        } else if e.plaintext_size > MAX_PRIVATE_CONTENT_SIZE {
            Some("Private entry '"@ + name + "' exceeds maximum size"@)
        } else if !is_canonical_identity(
            owner,
            defaults.union_prefer_right(e.readers).dom(),
            e.canonical_identity,
        ) {
            Some(
                "Private content identity mismatch for entry '"@ + name
                    + "'. It may have been initialized for a different owner."@,
            )
        } else {
            None
        }
    }
}

/// The problem found at step `i` of validating `es`, the batch having taken
/// the hashes in `seen` before.
pub open spec fn private_problem_at(
    v: PrivateContentView,
    owner: Seq<u8>,
    defaults: Map<Seq<u8>, crate::access::ReaderInfoView>,
    seen: Set<Seq<u8>>,
    es: Seq<(Seq<char>, Seq<u8>)>,
    i: int,
) -> Option<Seq<char>> {
    private_mint_problem(v, owner, defaults, seen + hashes_of(es.take(i)), es[i].0, es[i].1)
}

/// `es` lists the pairs of `m`, each key once.
pub open spec fn lists_hashes(es: Seq<(Seq<char>, Seq<u8>)>, m: Map<Seq<char>, Seq<u8>>) -> bool {
    &&& forall|i: int| 0 <= i < es.len() ==> m.contains_key(#[trigger] es[i].0) && m[es[i].0] == es[i].1
    &&& forall|k: Seq<char>| #[trigger] m.contains_key(k) ==> exists|i: int| 0 <= i < es.len() && es[i].0 == k
    &&& forall|i: int, j: int| 0 <= i < j < es.len() ==> #[trigger] es[i].0 != #[trigger] es[j].0
}

/// Validates the private content of one mint request for the token owner
/// `owner`: each entry (name to plaintext hash) must be a cached upload not
/// yet taken by the batch, ready to mint, within the size limit, and
/// encrypted for the owner and the entry's resolved readers. `seen` collects
/// the hashes the batch takes; the first problem, in some order of the
/// entries, is the answer.
#[verifier::loop_isolation(false)]
pub fn validate_private_mint(
    private: &PrivateContentSystem,
    owner: &PrincipalId,
    default_readers: &Readers,
    entries: &KeyedMap<String, Sha256Hash>,
    seen: &mut KeyedSet<Sha256Hash>,
) -> (r: Result<(), MintError>)
    ensures
        exists|es: Seq<(Seq<char>, Seq<u8>)>|
            #[trigger] lists_hashes(es, entries@) && match r {
                Ok(()) => (forall|i: int|
                    0 <= i < es.len() ==> #[trigger] private_problem_at(
                        private@,
                        owner@,
                        default_readers@,
                        old(seen)@,
                        es,
                        i,
                    ) is None) && final(seen)@ == old(seen)@ + hashes_of(es),
                Err(MintError::StorageCanisterError(m)) => exists|i: int|
                    0 <= i < es.len() && (forall|j: int|
                        0 <= j < i ==> #[trigger] private_problem_at(
                            private@,
                            owner@,
                            default_readers@,
                            old(seen)@,
                            es,
                            j,
                        ) is None) && private_problem_at(
                        private@,
                        owner@,
                        default_readers@,
                        old(seen)@,
                        es,
                        i,
                    ) == Some(m@) && final(seen)@ == old(seen)@ + hashes_of(es.take(i + 1)),
                Err(_) => false,
            },
{
    proof {
        use_type_invariant(entries);
        entries.lemma_positions();
    }
    let n = entries.len();
    let ghost es = Seq::new(
        n as nat,
        |i: int| (entries.spec_key_at(i), entries.spec_value_at(i)),
    );
    let ghost seen0 = seen@;
    proof {
        assert(lists_hashes(es, entries@)) by {
            assert forall|k: Seq<char>| #[trigger] entries@.contains_key(k) implies exists|i: int|
                0 <= i < es.len() && es[i].0 == k by {
                let i = entries.spec_index_of(k);
                assert(es[i].0 == k);
            }
        }
        assert(hashes_of(es.take(0)) =~= Set::<Seq<u8>>::empty());
        assert(seen@ =~= seen0 + hashes_of(es.take(0)));
    }
    let mut i: usize = 0;
    while i < n
        invariant
            n == entries.spec_len(),
            entries.inv(),
            i <= n,
            es.len() == n,
            seen@ == seen0 + hashes_of(es.take(i as int)),
            forall|j: int|
                0 <= j < i ==> #[trigger] private_problem_at(
                    private@,
                    owner@,
                    default_readers@,
                    seen0,
                    es,
                    j,
                ) is None,
        decreases n - i,
    {
        let name = entries.key_at(i);
        let hash = entries.value_at(i);
        let ghost problem = private_problem_at(private@, owner@, default_readers@, seen0, es, i as int);
        let ghost seen_before = seen@;
        proof {
            assert(es[i as int] == (name@, hash@));
            assert(hashes_of(es.take(i + 1)) =~= hashes_of(es.take(i as int)).insert(hash@)) by {
                assert forall|h: Seq<u8>| hashes_of(es.take(i + 1)).contains(h) implies hashes_of(
                    es.take(i as int),
                ).insert(hash@).contains(h) by {
                    let j = choose|j: int| 0 <= j < i + 1 && #[trigger] es.take(i + 1)[j].1 == h;
                    if j < i {
                        assert(es.take(i as int)[j].1 == h);
                    }
                }
                assert forall|h: Seq<u8>| hashes_of(es.take(i as int)).insert(hash@).contains(h) implies hashes_of(
                    es.take(i + 1),
                ).contains(h) by {
                    if h == hash@ {
                        assert(es.take(i + 1)[i as int].1 == h);
                    } else {
                        let j = choose|j: int| 0 <= j < i && #[trigger] es.take(i as int)[j].1 == h;
                        assert(es.take(i + 1)[j].1 == h);
                    }
                }
            }
        }
        let already = seen.contains(hash);
        seen.insert(*hash);
        proof {
            assert(seen@ =~= seen0 + hashes_of(es.take(i + 1)));
        }
        if already {
            let mut m = chars_of("Duplicate private content hash '");
            let hx = chars_of(hex_encode(hash.as_slice()).as_str());
            push_all(&mut m, &hx);
            let tail = chars_of("' in batch");
            push_all(&mut m, &tail);
            return Err(MintError::StorageCanisterError(string_from_chars(&m)));
        }
        let entry = match private.premint_cache.get(hash) {
            Some(e) => e,
            None => {
                let mut m = chars_of("Private entry '");
                let nm = chars_of(name.as_str());
                push_all(&mut m, &nm);
                let mid = chars_of("' with hash '");
                push_all(&mut m, &mid);
                let hx = chars_of(hex_encode(hash.as_slice()).as_str());
                push_all(&mut m, &hx);
                let tail = chars_of("' not found in premint cache");
                push_all(&mut m, &tail);
                return Err(MintError::StorageCanisterError(string_from_chars(&m)));
            },
        };
        if entry.status != PrivateContentStatus::PendingMinting && entry.status
            != PrivateContentStatus::Active {
            let mut m = chars_of("Private entry '");
            let nm = chars_of(name.as_str());
            push_all(&mut m, &nm);
            let tail = chars_of("' is not in a valid state for minting");
            push_all(&mut m, &tail);
            return Err(MintError::StorageCanisterError(string_from_chars(&m)));
        }
        if entry.plaintext_size > MAX_PRIVATE_CONTENT_SIZE {
            let mut m = chars_of("Private entry '");
            let nm = chars_of(name.as_str());
            push_all(&mut m, &nm);
            let tail = chars_of("' exceeds maximum size");
            push_all(&mut m, &tail);
            return Err(MintError::StorageCanisterError(string_from_chars(&m)));
        }
        let expected = construct_canonical_identity(owner.key_copy(), &entry.readers, default_readers);
        proof {
            lemma_canonical_identity_determined(
                owner@,
                default_readers@.union_prefer_right(entry@.readers).dom(),
                expected@,
                entry@.canonical_identity,
            );
        }
        if !bytes_equal(entry.canonical_identity.as_slice(), expected.as_slice()) {
            let mut m = chars_of("Private content identity mismatch for entry '");
            let nm = chars_of(name.as_str());
            push_all(&mut m, &nm);
            let tail = chars_of("'. It may have been initialized for a different owner.");
            push_all(&mut m, &tail);
            return Err(MintError::StorageCanisterError(string_from_chars(&m)));
        }
        i += 1;
    }
    proof {
        assert(es.take(n as int) =~= es);
    }
    Ok(())
}

/// What keeps the file at `path` from being linked to a token: it is neither
/// cached nor held by a token under that hash, or its cached upload is not
/// finalized.
pub open spec fn public_file_problem(v: PublicContentView, path: Seq<char>) -> Option<LinkFailure> {
    if !v.temp_file_cache.contains_key(path) && !(exists|t: u128, n: Seq<char>|
        #[trigger] holds_hash_at(v, path, t, n)) {
        Some(LinkFailure::Missing)
    } else if v.temp_file_cache.contains_key(path) && v.temp_file_cache[path].state
        != UploadState::Finalized {
        Some(LinkFailure::NotFinalized)
    } else {
        None
    }
}

/// The first entry of `es` whose file cannot be linked is the one at `i`.
pub open spec fn first_file_problem_at(v: PublicContentView, es: Seq<(Seq<char>, Seq<char>)>, i: int) -> bool {
    &&& 0 <= i < es.len()
    &&& public_file_problem(v, es[i].1) is Some
    &&& forall|j: int| 0 <= j < i ==> #[trigger] public_file_problem(v, es[j].1) is None
}

/// The message a mint answers for a public entry that cannot be used.
pub open spec fn public_mint_message(name: Seq<char>, path: Seq<char>, k: LinkFailure) -> Seq<char> {
    match k {
        LinkFailure::Missing => "Public entry '"@ + name + "' with path '"@ + path + "' not found"@,
        LinkFailure::NotFinalized => "Public entry '"@ + name + "' is not finalized"@,
    }
}

impl PublicContentSystem {
    /// What keeps the file at `path` from being linked to a token.
    pub fn file_problem(&self, path: &String) -> (r: Option<LinkFailure>)
        ensures
            r == public_file_problem(self@, path@),
    {
        match self.temp_file_cache.get(path) {
            Some(e) => {
                if e.state == UploadState::Finalized {
                    None
                } else {
                    Some(LinkFailure::NotFinalized)
                }
            },
            None => {
                let hit = self.find_by_hash(path);
                match hit {
                    Some(_) => None,
                    None => Some(LinkFailure::Missing),
                }
            },
        }
    }
}

/// Validates the public content of one mint request: every entry's file
/// must be a finalized upload, cached or held by a token. The first entry,
/// in some order, whose file cannot be used gives the answer.
#[verifier::loop_isolation(false)]
pub fn validate_public_mint(public: &PublicContentSystem, entries: &KeyedMap<String, String>) -> (r:
    Result<(), MintError>)
    ensures
        exists|es: Seq<(Seq<char>, Seq<char>)>|
            #[trigger] lists_pairs(es, entries@) && match r {
                Ok(()) => forall|i: int|
                    0 <= i < es.len() ==> #[trigger] public_file_problem(public@, es[i].1) is None,
                Err(MintError::StorageCanisterError(m)) => exists|i: int|
                    #[trigger] first_file_problem_at(public@, es, i) && m@ == public_mint_message(
                        es[i].0,
                        es[i].1,
                        public_file_problem(public@, es[i].1).unwrap(),
                    ),
                Err(_) => false,
            },
{
    proof {
        use_type_invariant(entries);
        entries.lemma_positions();
    }
    let n = entries.len();
    let ghost es = Seq::new(
        n as nat,
        |i: int| (entries.spec_key_at(i), entries.spec_value_at(i)),
    );
    proof {
        assert(lists_pairs(es, entries@)) by {
            assert forall|k: Seq<char>| #[trigger] entries@.contains_key(k) implies exists|i: int|
                0 <= i < es.len() && es[i].0 == k by {
                let i = entries.spec_index_of(k);
                assert(es[i].0 == k);
            }
        }
    }
    let mut i: usize = 0;
    while i < n
        invariant
            n == entries.spec_len(),
            entries.inv(),
            i <= n,
            es.len() == n,
            forall|j: int| 0 <= j < i ==> #[trigger] public_file_problem(public@, es[j].1) is None,
        decreases n - i,
    {
        let name = entries.key_at(i);
        let path = entries.value_at(i);
        proof {
            assert(es[i as int] == (name@, path@));
        }
        match public.file_problem(path) {
            None => {},
            Some(k) => {
                proof {
                    assert(first_file_problem_at(public@, es, i as int));
                }
                let mut m = chars_of("Public entry '");
                let nm = chars_of(name.as_str());
                push_all(&mut m, &nm);
                match k {
                    LinkFailure::Missing => {
                        let mid = chars_of("' with path '");
                        push_all(&mut m, &mid);
                        let p = chars_of(path.as_str());
                        push_all(&mut m, &p);
                        let tail = chars_of("' not found");
                        push_all(&mut m, &tail);
                    },
                    LinkFailure::NotFinalized => {
                        let tail = chars_of("' is not finalized");
                        push_all(&mut m, &tail);
                    },
                }
                return Err(MintError::StorageCanisterError(string_from_chars(&m)));
            },
        }
        i += 1;
    }
    Ok(())
}

/// Validates a request to append the files `entries` (entry name to file
/// path) to the token `token_id`: the token must exist, must not have an
/// entry of any of those names yet, and each file must be a finalized
/// upload, cached or held by a token under that hash.
#[verifier::loop_isolation(false)]
pub fn validate_append_request(
    public: &PublicContentSystem,
    token_exists: bool,
    token_id: u128,
    entries: &KeyedMap<String, String>,
) -> (r: Result<(), AppendFileError>)
    ensures
        !token_exists ==> r matches Err(AppendFileError::TokenDoesNotExists),
        token_exists && public@.nft_public.contains_key(token_id) && (exists|name: Seq<char>|
            #[trigger] entries@.contains_key(name) && public@.nft_public[token_id].entries.contains_key(
                name,
            )) ==> r matches Err(AppendFileError::FileAlreadyExists),
        token_exists && !(public@.nft_public.contains_key(token_id) && (exists|name: Seq<char>|
            #[trigger] entries@.contains_key(name) && public@.nft_public[token_id].entries.contains_key(
                name,
            ))) ==> exists|es: Seq<(Seq<char>, Seq<char>)>|
            #[trigger] lists_pairs(es, entries@) && match r {
                Ok(()) => forall|i: int|
                    0 <= i < es.len() ==> #[trigger] public_file_problem(public@, es[i].1) is None,
                Err(AppendFileError::NotFound) => exists|i: int|
                    #[trigger] first_file_problem_at(public@, es, i) && public_file_problem(
                        public@,
                        es[i].1,
                    ) == Some(LinkFailure::Missing),
                Err(AppendFileError::InvalidStateTransition) => exists|i: int|
                    #[trigger] first_file_problem_at(public@, es, i) && public_file_problem(
                        public@,
                        es[i].1,
                    ) == Some(LinkFailure::NotFinalized),
                Err(_) => false,
            },
{
    if !token_exists {
        return Err(AppendFileError::TokenDoesNotExists);
    }
    proof {
        use_type_invariant(entries);
        entries.lemma_positions();
    }
    let n = entries.len();
    match public.nft_public.get(&token_id) {
        Some(record) => {
            let mut k: usize = 0;
            while k < n
                invariant
                    n == entries.spec_len(),
                    entries.inv(),
                    k <= n,
                    forall|j: int|
                        0 <= j < k ==> !record@.entries.contains_key(
                            #[trigger] entries.spec_key_at(j),
                        ),
                decreases n - k,
            {
                if record.entries.contains_key(entries.key_at(k)) {
                    proof {
                        assert(entries@.contains_key(entries.spec_key_at(k as int)));
                    }
                    return Err(AppendFileError::FileAlreadyExists);
                }
                k += 1;
            }
            proof {
                assert forall|name: Seq<char>| #[trigger] entries@.contains_key(name) implies !public@.nft_public[token_id].entries.contains_key(
                    name,
                ) by {
                    let j = entries.spec_index_of(name);
                    assert(entries.spec_key_at(j) == name);
                }
            }
        },
        None => {},
    }
    let ghost es = Seq::new(
        n as nat,
        |i: int| (entries.spec_key_at(i), entries.spec_value_at(i)),
    );
    proof {
        assert(lists_pairs(es, entries@)) by {
            assert forall|k: Seq<char>| #[trigger] entries@.contains_key(k) implies exists|i: int|
                0 <= i < es.len() && es[i].0 == k by {
                let i = entries.spec_index_of(k);
                assert(es[i].0 == k);
            }
        }
    }
    let mut i: usize = 0;
    while i < n
        invariant
            n == entries.spec_len(),
            entries.inv(),
            i <= n,
            es.len() == n,
            forall|j: int| 0 <= j < i ==> #[trigger] public_file_problem(public@, es[j].1) is None,
        decreases n - i,
    {
        let path = entries.value_at(i);
        proof {
            assert(es[i as int].1 == path@);
        }
        match public.file_problem(path) {
            None => {},
            Some(LinkFailure::Missing) => {
                proof {
                    assert(first_file_problem_at(public@, es, i as int));
                }
                return Err(AppendFileError::NotFound);
            },
            Some(LinkFailure::NotFinalized) => {
                proof {
                    assert(first_file_problem_at(public@, es, i as int));
                }
                return Err(AppendFileError::InvalidStateTransition);
            },
        }
        i += 1;
    }
    Ok(())
}

/// The file a chunk goes to: the stored file at `file_path` if its upload
/// is not finalized.
pub fn chunk_upload_target(public: &PublicContentSystem, file_path: &str) -> (r: Result<
    PublicEntry,
    StoreChunkError,
>)
    ensures
        exists|found: Option<PublicEntryView>|
            #[trigger] path_lookup(public@, file_path@, found) && match found {
                None => r matches Err(StoreChunkError::UploadNotInitialized),
                Some(e) => if e.state == UploadState::Finalized {
                    r matches Err(StoreChunkError::UploadAlreadyFinalized)
                } else {
                    r matches Ok(x) && x@ == e
                },
            },
{
    let found = public.get_public_file_by_path(file_path);
    let ghost fv = match &found {
        Some(e) => Some(e@),
        None => None,
    };
    proof {
        assert(path_lookup(public@, file_path@, fv));
    }
    match found {
        None => Err(StoreChunkError::UploadNotInitialized),
        Some(e) => if e.state == UploadState::Finalized {
            Err(StoreChunkError::UploadAlreadyFinalized)
        } else {
            Ok(e)
        },
    }
}

/// The file an upload finalization goes to: the stored file at `file_path`
/// if chunks of it were received and it is not finalized.
pub fn finalize_upload_target(public: &PublicContentSystem, file_path: &str) -> (r: Result<
    PublicEntry,
    FinalizeUploadError,
>)
    ensures
        exists|found: Option<PublicEntryView>|
            #[trigger] path_lookup(public@, file_path@, found) && match found {
                None => r matches Err(FinalizeUploadError::UploadNotStarted),
                Some(e) => if e.state == UploadState::Finalized {
                    r matches Err(FinalizeUploadError::UploadAlreadyFinalized)
                } else if e.state == UploadState::Init || e.state == UploadState::ReuploadInit
                    || e.state == UploadState::InitReupload {
                    r matches Err(FinalizeUploadError::UploadNotStarted)
                } else {
                    r matches Ok(x) && x@ == e
                },
            },
{
    let found = public.get_public_file_by_path(file_path);
    let ghost fv = match &found {
        Some(e) => Some(e@),
        None => None,
    };
    proof {
        assert(path_lookup(public@, file_path@, fv));
    }
    match found {
        None => Err(FinalizeUploadError::UploadNotStarted),
        Some(e) => match e.state {
            UploadState::Init | UploadState::ReuploadInit | UploadState::InitReupload => Err(
                FinalizeUploadError::UploadNotStarted,
            ),
            UploadState::Finalized => Err(FinalizeUploadError::UploadAlreadyFinalized),
            _ => Ok(e),
        },
    }
}

/// The file an upload cancellation goes to: the stored file at `file_path`
/// if its upload is not finalized.
pub fn cancel_upload_target(public: &PublicContentSystem, file_path: &str) -> (r: Result<
    PublicEntry,
    CancelUploadError,
>)
    ensures
        exists|found: Option<PublicEntryView>|
            #[trigger] path_lookup(public@, file_path@, found) && match found {
                None => r matches Err(CancelUploadError::UploadNotInitialized),
                Some(e) => if e.state == UploadState::Finalized {
                    r matches Err(CancelUploadError::UploadAlreadyFinalized)
                } else {
                    r matches Ok(x) && x@ == e
                },
            },
{
    let found = public.get_public_file_by_path(file_path);
    let ghost fv = match &found {
        Some(e) => Some(e@),
        None => None,
    };
    proof {
        assert(path_lookup(public@, file_path@, fv));
    }
    match found {
        None => Err(CancelUploadError::UploadNotInitialized),
        Some(e) => if e.state == UploadState::Finalized {
            Err(CancelUploadError::UploadAlreadyFinalized)
        } else {
            Ok(e)
        },
    }
}

/// The chunk size of an upload: the one given, or `CHUNK_SIZE`.
pub open spec fn chunk_size_of(chunk_size: Option<u64>) -> int {
    match chunk_size {
        Some(c) => c as int,
        None => CHUNK_SIZE as int,
    }
}

/// `size` divided by `cs`, rounded up.
pub open spec fn div_ceil(size: int, cs: int) -> int {
    size / cs + if size % cs == 0 {
        0int
    } else {
        1int
    }
}

/// How many chunks an upload of `file_size` bytes takes, in chunks of
/// `chunk_size` bytes (or `CHUNK_SIZE` when none is given): the size divided
/// by the chunk size, rounded up.
pub fn expected_chunks(file_size: u64, chunk_size: Option<u64>) -> (n: usize)
    requires
        chunk_size != Some(0u64),
        div_ceil(file_size as int, chunk_size_of(chunk_size)) <= usize::MAX,
    ensures
        n == div_ceil(file_size as int, chunk_size_of(chunk_size)),
{
    let cs: u64 = match chunk_size {
        Some(c) => c,
        None => CHUNK_SIZE as u64,
    };
    let q = file_size / cs;
    let n: u64 = if file_size % cs == 0 {
        q
    } else {
        q + 1
    };
    n as usize
}

/// Why an upload status could not be given.
#[derive(Debug)]
pub enum GetUploadStatusError {
    UploadNotFound,
}

/// The upload state of a private file: a cached upload is initialized until
/// a chunk arrives, then in progress; an entry of a minted token under
/// re-upload likewise; a file with no pending upload is finalized.
pub open spec fn private_upload_state(e: PrivateEntryView, minted: bool) -> UploadState {
    match e.pending_upload {
        Some(pu) => if pu.received_chunks.len() == 0 {
            if minted {
                UploadState::InitReupload
            } else {
                UploadState::Init
            }
        } else {
            if minted {
                UploadState::ChunkReupload
            } else {
                UploadState::InProgress
            }
        },
        None => UploadState::Finalized,
    }
}

/// Where a private upload stands, by where it is: an entry of a minted
/// token is being re-uploaded (initialized with no chunk yet, then chunks
/// arriving), a cached upload is initialized, then in progress; a file with
/// no pending upload is finalized. The states of the two kinds never meet
/// but in `Finalized`. A chunk stored into a pending upload makes it
/// `ChunkReupload` for a minted entry and `InProgress` for a cached one,
/// and a re-upload that starts is `InitReupload`.
pub proof fn lemma_private_upload_states(
    e: PrivateEntryView,
    index: usize,
    data: Seq<u8>,
    expected: usize,
    chunk_size: usize,
    timestamp: u64,
)
    requires
        e.pending_upload matches Some(pu) ==> pu.received_chunks.dom().finite(),
    ensures
        e.pending_upload matches Some(pu) && pu.received_chunks.len() > 0 ==> private_upload_state(e, true)
            == UploadState::ChunkReupload && private_upload_state(e, false) == UploadState::InProgress,
        e.pending_upload matches Some(pu) && pu.received_chunks.len() == 0 ==> private_upload_state(e, true)
            == UploadState::InitReupload && private_upload_state(e, false) == UploadState::Init,
        e.pending_upload is None ==> private_upload_state(e, true) == UploadState::Finalized
            && private_upload_state(e, false) == UploadState::Finalized,
        private_upload_state(e, true) != UploadState::InProgress && private_upload_state(e, true)
            != UploadState::Init,
        private_upload_state(e, false) != UploadState::ChunkReupload && private_upload_state(e, false)
            != UploadState::InitReupload,
        e.pending_upload is Some ==> private_upload_state(with_chunk(e, index, data), true)
            == UploadState::ChunkReupload && private_upload_state(with_chunk(e, index, data), false)
            == UploadState::InProgress,
        private_upload_state(
            PrivateEntryView {
                pending_upload: Some(
                    PendingUploadView {
                        expected_chunks: expected,
                        received_chunks: Map::empty(),
                        chunk_size,
                        timestamp_ns: timestamp,
                    },
                ),
                ..e
            },
            true,
        ) == UploadState::InitReupload,
{
    if e.pending_upload is Some {
        let pu = e.pending_upload.unwrap();
        let m = pu.received_chunks.insert(index, data);
        assert(m.dom() == pu.received_chunks.dom().insert(index));
        assert(m.dom().contains(index));
        assert(m.dom().finite());
        if m.len() == 0 {
            vstd::set_lib::lemma_set_empty_equivalency_len(m.dom());
        }
    }
    assert(Map::<usize, Seq<u8>>::empty().len() == 0) by {
        broadcast use vstd::set::axiom_set_empty_len;
        assert(Map::<usize, Seq<u8>>::empty().dom() =~= Set::<usize>::empty());
    }
}

/// A cached private upload of plaintext `h` is stored at `p`.
pub open spec fn cached_private_at(v: PrivateContentView, p: Seq<char>, h: Seq<u8>) -> bool {
    v.premint_cache.contains_key(h) && v.premint_cache[h].storage_path == p
}

/// The entry `n` of the token `t` is stored at `p`.
pub open spec fn minted_private_at(v: PrivateContentView, p: Seq<char>, t: u128, n: Seq<char>) -> bool {
    v.nft_private.contains_key(t) && v.nft_private[t].entries.contains_key(n)
        && v.nft_private[t].entries[n].storage_path == p
}

/// Where the upload of `file_path` stands: the public file at that path;
/// failing that a cached private upload stored there; failing that an entry
/// of a minted token stored there.
#[verifier::loop_isolation(false)]
pub fn get_upload_status(
    public: &PublicContentSystem,
    private: &PrivateContentSystem,
    file_path: &String,
) -> (r: Result<UploadState, GetUploadStatusError>)
    ensures
        exists|found: Option<PublicEntryView>|
            #[trigger] path_lookup(public@, file_path@, found) && match found {
                Some(e) => r matches Ok(s) && s == e.state,
                None => if exists|h: Seq<u8>| #[trigger] cached_private_at(private@, file_path@, h) {
                    exists|h: Seq<u8>|
                        #[trigger] cached_private_at(private@, file_path@, h) && (r matches Ok(s)
                            && s == private_upload_state(private@.premint_cache[h], false))
                } else if exists|t: u128, n: Seq<char>|
                    #[trigger] minted_private_at(private@, file_path@, t, n) {
                    exists|t: u128, n: Seq<char>|
                        #[trigger] minted_private_at(private@, file_path@, t, n) && (r matches Ok(s)
                            && s == private_upload_state(private@.nft_private[t].entries[n], true))
                } else {
                    r is Err
                },
            },
{
    let found = public.get_public_file_by_path(file_path.as_str());
    let ghost fv = match &found {
        Some(e) => Some(e@),
        None => None,
    };
    proof {
        assert(path_lookup(public@, file_path@, fv));
    }
    match found {
        Some(e) => {
            return Ok(e.state);
        },
        None => {},
    }
    let n = private.premint_cache.len();
    let mut i: usize = 0;
    while i < n
        invariant
            n == private.premint_cache.spec_len(),
            private.premint_cache.inv(),
            i <= n,
            forall|j: int|
                0 <= j < i ==> (#[trigger] private.premint_cache.spec_value_at(j)).storage_path
                    != file_path@,
        decreases n - i,
    {
        proof {
            private.premint_cache.lemma_positions();
        }
        let e = private.premint_cache.value_at(i);
        if e.storage_path == *file_path {
            proof {
                let h = private.premint_cache.spec_key_at(i as int);
                assert(private@.premint_cache.contains_key(h));
                assert(cached_private_at(private@, file_path@, h));
            }
            let s = match &e.pending_upload {
                Some(pending) => if pending.received_chunks.is_empty() {
                    UploadState::Init
                } else {
                    UploadState::InProgress
                },
                None => UploadState::Finalized,
            };
            return Ok(s);
        }
        i += 1;
    }
    proof {
        private.premint_cache.lemma_positions();
        assert forall|h: Seq<u8>| !#[trigger] cached_private_at(private@, file_path@, h) by {
            if private@.premint_cache.contains_key(h) {
                let j = private.premint_cache.spec_index_of(h);
                assert(private.premint_cache.spec_value_at(j).storage_path != file_path@);
            }
        }
    }
    let m = private.nft_private.len();
    let mut a: usize = 0;
    while a < m
        invariant
            m == private.nft_private.spec_len(),
            private.nft_private.inv(),
            a <= m,
            forall|k: int, nm: Seq<char>|
                0 <= k < a ==> !#[trigger] minted_private_at(
                    private@,
                    file_path@,
                    private.nft_private.spec_key_at(k),
                    nm,
                ),
        decreases m - a,
    {
        proof {
            private.nft_private.lemma_positions();
        }
        let record = private.nft_private.value_at(a);
        let ghost t = private.nft_private.spec_key_at(a as int);
        proof {
            assert(private@.nft_private.contains_key(t));
            assert(private@.nft_private[t] == record@);
        }
        let c = record.entries.len();
        let mut b: usize = 0;
        while b < c
            invariant
                c == record.entries.spec_len(),
                record.entries.inv(),
                b <= c,
                forall|k: int|
                    0 <= k < b ==> (#[trigger] record.entries.spec_value_at(k)).storage_path
                        != file_path@,
            decreases c - b,
        {
            let e = record.entries.value_at(b);
            if e.storage_path == *file_path {
                proof {
                    record.entries.lemma_positions();
                    let nm = record.entries.spec_key_at(b as int);
                    assert(record@.entries.contains_key(nm));
                    assert(minted_private_at(private@, file_path@, t, nm));
                }
                let s = match &e.pending_upload {
                    Some(pending) => if pending.received_chunks.is_empty() {
                        UploadState::InitReupload
                    } else {
                        UploadState::ChunkReupload
                    },
                    None => UploadState::Finalized,
                };
                return Ok(s);
            }
            b += 1;
        }
        proof {
            record.entries.lemma_positions();
            assert forall|nm: Seq<char>| !#[trigger] minted_private_at(private@, file_path@, t, nm) by {
                if record@.entries.contains_key(nm) {
                    let k = record.entries.spec_index_of(nm);
                    assert(record.entries.spec_value_at(k).storage_path != file_path@);
                }
            }
        }
        a += 1;
    }
    proof {
        private.nft_private.lemma_positions();
        assert forall|t: u128, nm: Seq<char>| !#[trigger] minted_private_at(private@, file_path@, t, nm) by {
            if private@.nft_private.contains_key(t) {
                let k = private.nft_private.spec_index_of(t);
                assert(!minted_private_at(private@, file_path@, private.nft_private.spec_key_at(k), nm));
            }
        }
    }
    Err(GetUploadStatusError::UploadNotFound)
}

/// Why a burn failed.
#[derive(Debug)]
pub enum BurnNftError {
    ConcurrentManagementCall,
    TokenDoesNotExist,
    NotTokenOwner,
    StorageCanisterError(String),
}

/// Whether the caller may burn the token, whose owner is `owner` (`None`
/// when the token does not exist).
pub fn check_burn(owner: Option<&PrincipalId>, caller: &PrincipalId) -> (r: Result<(), BurnNftError>)
    ensures
        match owner {
            None => r matches Err(BurnNftError::TokenDoesNotExist),
            Some(o) => if o@ == caller@ {
                r is Ok
            } else {
                r matches Err(BurnNftError::NotTokenOwner)
            },
        },
{
    match owner {
        None => Err(BurnNftError::TokenDoesNotExist),
        Some(o) => if o.key_eq(caller) {
            Ok(())
        } else {
            Err(BurnNftError::NotTokenOwner)
        },
    }
}

/// `files` holds the storage canister and path of the entries `names`, which
/// list the entries of `es` each once.
pub open spec fn lists_entry_files(
    es: Map<Seq<char>, PrivateEntryView>,
    files: Seq<(PrincipalId, String)>,
    names: Seq<Seq<char>>,
) -> bool {
    &&& names.len() == files.len()
    &&& names.no_duplicates()
    &&& forall|k: Seq<char>| #[trigger] es.contains_key(k) <==> names.contains(k)
    &&& forall|i: int|
        0 <= i < names.len() ==> (#[trigger] files[i]).0@ == es[names[i]].storage_canister_id
            && files[i].1@ == es[names[i]].storage_path
}

/// The files a burn of the token removes from storage: the storage canister
/// and path of each of its private entries, one per entry.
pub fn private_files_of(private: &PrivateContentSystem, token_id: u128) -> (r: Vec<(PrincipalId, String)>)
    ensures
        !private@.nft_private.contains_key(token_id) ==> r@.len() == 0,
        private@.nft_private.contains_key(token_id) ==> exists|names: Seq<Seq<char>>|
            #[trigger] lists_entry_files(private@.nft_private[token_id].entries, r@, names),
{
    let mut out: Vec<(PrincipalId, String)> = Vec::new();
    match private.nft_private.get(&token_id) {
        None => {},
        Some(record) => {
            let n = record.entries.len();
            let ghost names = Seq::new(n as nat, |i: int| record.entries.spec_key_at(i));
            let mut i: usize = 0;
            while i < n
                invariant
                    n == record.entries.spec_len(),
                    record.entries.inv(),
                    i <= n,
                    out@.len() == i,
                    names == Seq::new(n as nat, |i: int| record.entries.spec_key_at(i)),
                    forall|j: int|
                        0 <= j < i ==> (#[trigger] out@[j]).0@ == record.entries.spec_value_at(
                            j,
                        ).storage_canister_id && out@[j].1@ == record.entries.spec_value_at(j).storage_path,
                decreases n - i,
            {
                let e = record.entries.value_at(i);
                out.push((e.storage_canister_id.key_copy(), e.storage_path.clone()));
                i += 1;
            }
            proof {
                record.entries.lemma_positions();
                let es = private@.nft_private[token_id].entries;
                assert forall|a: int, b: int| 0 <= a < b < names.len() implies names[a] != names[b] by {}
                assert forall|k: Seq<char>| #[trigger] es.contains_key(k) <==> names.contains(k) by {
                    if es.contains_key(k) {
                        let j = record.entries.spec_index_of(k);
                        assert(names[j] == k);
                    }
                    if names.contains(k) {
                        let j = choose|j: int| 0 <= j < names.len() && names[j] == k;
                        assert(es.contains_key(record.entries.spec_key_at(j)));
                    }
                }
                assert forall|i: int| 0 <= i < names.len() implies (#[trigger] out@[i]).0@
                    == es[names[i]].storage_canister_id && out@[i].1@ == es[names[i]].storage_path by {
                    assert(es.contains_key(record.entries.spec_key_at(i)));
                }
                assert(lists_entry_files(es, out@, names));
            }
        },
    }
    out
}

/// The message of a refused collection metadata key.
pub open spec fn protected_key_message(key: Seq<char>) -> Seq<char> {
    "Cannot overwrite protected key '"@ + key + "'"@
}

/// Whether custom collection metadata may be set with these keys: none may
/// start with `icrc7:`; the first such key, in the order given, is refused.
pub fn check_collection_metadata_keys(keys: &Vec<String>) -> (r: Result<(), String>)
    ensures
        match r {
            Ok(()) => forall|i: int| 0 <= i < keys@.len() ==> !seq_starts_with(#[trigger] keys@[i]@, "icrc7:"@),
            Err(m) => exists|i: int|
                0 <= i < keys@.len() && seq_starts_with(keys@[i]@, "icrc7:"@) && (forall|j: int|
                    0 <= j < i ==> !seq_starts_with(#[trigger] keys@[j]@, "icrc7:"@)) && m@
                    == protected_key_message(keys@[i]@),
        },
{
    let prefix = chars_of("icrc7:");
    let mut i: usize = 0;
    while i < keys.len()
        invariant
            i <= keys@.len(),
            prefix@ == "icrc7:"@,
            forall|j: int| 0 <= j < i ==> !seq_starts_with(#[trigger] keys@[j]@, "icrc7:"@),
        decreases keys@.len() - i,
    {
        let k = chars_of(keys[i].as_str());
        if crate::text::starts_with_chars(&k, &prefix) {
            let mut m = chars_of("Cannot overwrite protected key '");
            push_all(&mut m, &k);
            let tail = chars_of("'");
            push_all(&mut m, &tail);
            return Err(string_from_chars(&m));
        }
        i += 1;
    }
    Ok(())
}

} // verus!
