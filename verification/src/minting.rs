//! Minting a batch of tokens and appending files to tokens: every request
//! of a call is checked before its tokens and content are written, and a
//! call that is refused, or whose registration stops, leaves them as they
//! were (a refused mint keeps only the metadata its checks stored).

use vstd::prelude::*;
use crate::access::Readers;
use crate::collection::CollectionSettings;
use crate::guards::MAX_CONCURRENT;
use crate::keyed::{DeepCopy, KeyedMap, KeyedSet, MapKey};
use crate::ledger::{stored_subaccount, Account, Icrc7Token, TokenLedger, TokenView};
use crate::management::{
    batch_limit, check_memo, check_mint_batch, validate_private_mint, validate_public_mint, MintError,
    DEFAULT_MAX_SUPPLY_CAP,
};
use crate::metadata_store::{token_data, Metadata};
use crate::principal::PrincipalId;
use crate::private_content::{
    lists_hash_pairs, same_error, PrivateContentError, private_mint_fold, private_minted_system, PrivateContentStatus, PrivateContentSystem,
    PrivateContentView,
    Sha256Hash,
};
use crate::public_content::{PublicContentSystem, PublicContentView};
use crate::public_links::{
    append_outcome, appended_system, lemma_link_fresh_uploads, link_fold, link_outcome, linked_system, lists_pairs,
    lookups_sound, mint_answer, paths_of, LinkFailure,
};
use crate::public_content::{PublicContentError, PublicEntryView};
use crate::upload::UploadState;
use crate::upload::AppendFileError;
use crate::management::{
    check_burn, first_file_problem_at, hashes_of, lists_entry_files, private_files_of, BurnNftError, lists_hashes, private_mint_problem, private_problem_at, public_file_problem,
    public_mint_message, validate_append_request,
    DEFAULT_MAX_MEMO_SIZE,
};

verus! {

/// What the collection holds that minting reads and changes.
pub struct CollectionState<V: DeepCopy> {
    pub settings: CollectionSettings<V>,
    pub guards: KeyedSet<PrincipalId>,
    pub ledger: TokenLedger,
    pub tokens_by_owner: KeyedMap<Account, Vec<u128>>,
    pub last_token_id: u128,
    pub metadata: Metadata<V>,
    pub public: PublicContentSystem,
    pub private: PrivateContentSystem,
}

/// Private content minted with a token: its default readers and its entries
/// (entry name to plaintext hash of a cached upload).
pub struct PrivateMintContent {
    pub default_readers: Readers,
    pub entries: KeyedMap<String, Sha256Hash>,
}

/// Public content minted with a token: its entries (entry name to file path).
pub struct PublicMintContent {
    pub entries: KeyedMap<String, String>,
}

/// One token to mint.
pub struct MintRequest<V: DeepCopy> {
    pub token_owner: Account,
    pub memo: Option<Vec<u8>>,
    pub metadata: KeyedMap<String, V>,
    pub private_content: Option<PrivateMintContent>,
    pub public_content: Option<PublicMintContent>,
}

/// What the transaction log records of a minted token.
pub struct MintRecord {
    pub token_id: u128,
    pub owner: Account,
    pub memo: Option<Vec<u8>>,
    pub timestamp_ns: u64,
}

/// The token a mint puts in the ledger.
pub open spec fn minted_token(t: u128, owner: Account) -> TokenView {
    TokenView {
        token_id: t,
        name: Seq::empty(),
        description: None,
        logo: None,
        owner: owner@,
        owner_subaccount: stored_subaccount(owner.subaccount),
    }
}

/// The owners of the requests.
pub open spec fn request_owners<V: DeepCopy>(rs: Seq<MintRequest<V>>) -> Seq<Account> {
    rs.map_values(|r: MintRequest<V>| r.token_owner)
}

/// The ledger once the tokens `l`, `l + 1`, ... are given to `owners` in turn.
pub open spec fn ledger_after(m: Map<u128, TokenView>, owners: Seq<Account>, l: int) -> Map<
    u128,
    TokenView,
>
    decreases owners.len(),
{
    if owners.len() == 0 {
        m
    } else {
        let t = (l + owners.len() - 1) as u128;
        ledger_after(m, owners.drop_last(), l).insert(t, minted_token(t, owners.last()))
    }
}

/// The owners' token lists once the tokens `l`, `l + 1`, ... are given to
/// `owners` in turn: each new token goes last in its owner's list.
pub open spec fn index_after(
    m: Map<(Seq<u8>, Seq<u8>), Seq<u128>>,
    owners: Seq<Account>,
    l: int,
) -> Map<(Seq<u8>, Seq<u8>), Seq<u128>>
    decreases owners.len(),
{
    if owners.len() == 0 {
        m
    } else {
        let prev = index_after(m, owners.drop_last(), l);
        let o = owners.last()@;
        let t = (l + owners.len() - 1) as u128;
        prev.insert(
            o,
            (if prev.contains_key(o) {
                prev[o]
            } else {
                Seq::empty()
            }).push(t),
        )
    }
}

/// The metadata of the tokens `l`, `l + 1`, ... set to `mds` in turn; a token
/// given no metadata keeps what it had.
pub open spec fn metadata_after<W>(
    m: Map<u128, Map<Seq<char>, W>>,
    mds: Seq<Map<Seq<char>, W>>,
    l: int,
) -> Map<u128, Map<Seq<char>, W>>
    decreases mds.len(),
{
    if mds.len() == 0 {
        m
    } else {
        let prev = metadata_after(m, mds.drop_last(), l);
        let t = (l + mds.len() - 1) as u128;
        if mds.last().len() == 0 {
            prev
        } else {
            prev.insert(t, token_data(prev, t).union_prefer_right(mds.last()))
        }
    }
}

/// The metadata the requests carry.
pub open spec fn request_metadata<V: DeepCopy>(rs: Seq<MintRequest<V>>) -> Seq<Map<Seq<char>, V::V>> {
    rs.map_values(|r: MintRequest<V>| r.metadata@)
}

/// The stored files of the cached private uploads that the entries name.
pub open spec fn cached_private_paths(v: PrivateContentView, entries: Map<Seq<char>, Seq<u8>>) -> Set<Seq<char>> {
    Set::new(
        |p: Seq<char>|
            exists|name: Seq<char>|
                #[trigger] entries.contains_key(name) && v.premint_cache.contains_key(entries[name])
                    && v.premint_cache[entries[name]].storage_path == p,
    )
}

/// `pv` without the cached public uploads at `paths`.
pub open spec fn without_cached(pv: PublicContentView, paths: Set<Seq<char>>) -> PublicContentView {
    PublicContentView { temp_file_cache: pv.temp_file_cache.remove_keys(paths), ..pv }
}

/// The public content once the cached uploads of the request's private files
/// have left the public cache.
pub open spec fn public_before_link<V: DeepCopy>(
    pv: PublicContentView,
    vv: PrivateContentView,
    req: MintRequest<V>,
) -> PublicContentView {
    match req.private_content {
        Some(pc) => without_cached(pv, cached_private_paths(vv, pc.entries@)),
        None => pv,
    }
}

/// Minting the content of `req` for the token `t` took the public and
/// private content from `pv` and `vv` to `pv2` and `vv2`, as the two
/// systems' own mints do, with no failure.
pub open spec fn mint_content_step<V: DeepCopy>(
    pv: PublicContentView,
    vv: PrivateContentView,
    req: MintRequest<V>,
    t: u128,
    pv2: PublicContentView,
    vv2: PrivateContentView,
) -> bool {
    let pmid = public_before_link(pv, vv, req);
    &&& match req.private_content {
        Some(pc) => {
            &&& !vv.nft_private.contains_key(t)
            &&& exists|es: Seq<(Seq<char>, Seq<u8>)>|
                #[trigger] lists_hash_pairs(es, pc.entries@) && vv2 == private_minted_system(
                    vv,
                    t,
                    pc.default_readers@,
                    es,
                    req.token_owner.owner@,
                ) && private_mint_fold(vv, es, req.token_owner.owner@).2 is None
        },
        None => vv2 == vv,
    }
    &&& match req.public_content {
        Some(pu) => !pmid.nft_public.contains_key(t) && link_outcome(pmid, t, pu.entries@, false, pv2, None),
        None => pv2 == pmid,
    }
}

/// The content of the requests was minted for the tokens `l`, `l + 1`, ...
/// in turn, from `(pv, vv)` to `(pv2, vv2)`.
pub open spec fn mint_content_steps<V: DeepCopy>(
    pv: PublicContentView,
    vv: PrivateContentView,
    rs: Seq<MintRequest<V>>,
    l: int,
    pv2: PublicContentView,
    vv2: PrivateContentView,
) -> bool {
    exists|pubs: Seq<PublicContentView>, privs: Seq<PrivateContentView>|
        {
            &&& pubs.len() == rs.len() + 1
            &&& privs.len() == rs.len() + 1
            &&& pubs[0] == pv
            &&& privs[0] == vv
            &&& pubs[rs.len() as int] == pv2
            &&& privs[rs.len() as int] == vv2
            &&& forall|i: int|
                0 <= i < rs.len() ==> #[trigger] mint_content_step(
                    pubs[i],
                    privs[i],
                    rs[i],
                    (l + i) as u128,
                    pubs[i + 1],
                    privs[i + 1],
                )
        }
}

/// Drops from the public cache the uploads of the cached private entries.
fn drop_cached_private_paths(public: &mut PublicContentSystem, private: &PrivateContentSystem, entries: &KeyedMap<
    String,
    Sha256Hash,
>)
    ensures
        final(public)@ == without_cached(old(public)@, cached_private_paths(private@, entries@)),
{
    let pairs = entries.to_pairs();
    let ghost mut removed: Set<Seq<char>> = Set::empty();
    let mut k: usize = 0;
    assert(old(public)@.temp_file_cache.remove_keys(removed) =~= old(public)@.temp_file_cache);
    while k < pairs.len()
        invariant
            k <= pairs@.len(),
            public@ == without_cached(old(public)@, removed),
            forall|p: Seq<char>| #[trigger] removed.contains(p) <==> exists|j: int|
                0 <= j < k && private@.premint_cache.contains_key(pairs@[j].1@)
                    && private@.premint_cache[pairs@[j].1@].storage_path == p,
        decreases pairs@.len() - k,
    {
        match private.premint_cache.get(&pairs[k].1) {
            Some(e) => {
                let ghost sp = e.storage_path@;
                public.temp_file_cache.remove(&e.storage_path);
                proof {
                    assert(old(public)@.temp_file_cache.remove_keys(removed).remove(sp)
                        =~= old(public)@.temp_file_cache.remove_keys(removed.insert(sp)));
                    removed = removed.insert(sp);
                    assert forall|p: Seq<char>| #[trigger] removed.contains(p) <==> exists|j: int|
                        0 <= j < k + 1 && private@.premint_cache.contains_key(pairs@[j].1@)
                            && private@.premint_cache[pairs@[j].1@].storage_path == p by {
                        if p == sp {
                            assert(private@.premint_cache.contains_key(pairs@[k as int].1@));
                        }
                    }
                }
            },
            None => {},
        }
        k += 1;
    }
    proof {
        use_type_invariant(entries);
        entries.lemma_positions();
        let target = cached_private_paths(private@, entries@);
        assert forall|p: Seq<char>| #[trigger] removed.contains(p) <==> target.contains(p) by {
            if removed.contains(p) {
                let j = choose|j: int|
                    0 <= j < k && private@.premint_cache.contains_key(pairs@[j].1@)
                        && private@.premint_cache[pairs@[j].1@].storage_path == p;
                assert(entries@.contains_key(pairs@[j].0@));
            }
            if target.contains(p) {
                let name = choose|name: Seq<char>|
                    #[trigger] entries@.contains_key(name) && private@.premint_cache.contains_key(entries@[name])
                        && private@.premint_cache[entries@[name]].storage_path == p;
                assert(pairs@.len() == entries@.len());
                lemma_pairs_cover(pairs@, entries@, name);
            }
        }
        assert(removed =~= target);
    }
}

/// Every key of a map is the key of one of the pairs that list it.
proof fn lemma_pairs_cover(pairs: Seq<(String, Sha256Hash)>, m: Map<Seq<char>, Seq<u8>>, name: Seq<char>)
    requires
        m.dom().finite(),
        pairs.len() == m.len(),
        forall|i: int| 0 <= i < pairs.len() ==> m.contains_key((#[trigger] pairs[i]).0@) && pairs[i].1@ == m[pairs[i].0@],
        forall|i: int, j: int| 0 <= i < j < pairs.len() ==> (#[trigger] pairs[i]).0@ != (#[trigger] pairs[j]).0@,
        m.contains_key(name),
    ensures
        exists|j: int| 0 <= j < pairs.len() && pairs[j].0@ == name,
{
    let keys = pairs.map_values(|p: (String, Sha256Hash)| p.0@);
    assert(keys.no_duplicates()) by {
        assert forall|a: int, b: int| 0 <= a < keys.len() && 0 <= b < keys.len() && a != b implies keys[a]
            != keys[b] by {
            if a < b {
                assert(pairs[a].0@ != pairs[b].0@);
            } else {
                assert(pairs[b].0@ != pairs[a].0@);
            }
        }
    }
    keys.unique_seq_to_set();
    assert(keys.to_set().subset_of(m.dom())) by {
        assert forall|k: Seq<char>| keys.to_set().contains(k) implies m.dom().contains(k) by {
            let i = choose|i: int| 0 <= i < keys.len() && keys[i] == k;
            assert(m.contains_key(pairs[i].0@));
        }
    }
    vstd::set_lib::lemma_subset_equality(keys.to_set(), m.dom());
    assert(keys.to_set().contains(name));
    let j = choose|j: int| 0 <= j < keys.len() && keys[j] == name;
    assert(pairs[j].0@ == name);
}

/// A memo by its bytes.
pub open spec fn memo_view(m: Option<Vec<u8>>) -> Option<Seq<u8>> {
    match m {
        Some(b) => Some(b@),
        None => None,
    }
}

/// The batch of `n` mints fits the collection's batch limit and supply cap,
/// `count` tokens being minted already.
pub open spec fn batch_fits<V>(s: CollectionSettings<V>, count: int, n: int) -> bool {
    n <= batch_limit(s.max_update_batch_size) && count + n <= match s.supply_cap {
        Some(c) => c,
        None => DEFAULT_MAX_SUPPLY_CAP,
    }
}

/// Appends the token `t` to the list of `owner`.
fn push_owned(index: &mut KeyedMap<Account, Vec<u128>>, owner: &Account, t: u128)
    ensures
        final(index)@ == old(index)@.insert(
            owner@,
            (if old(index)@.contains_key(owner@) {
                old(index)@[owner@]
            } else {
                Seq::empty()
            }).push(t),
        ),
{
    let mut list = match index.remove(owner) {
        Some(v) => v,
        None => Vec::new(),
    };
    list.push(t);
    index.insert(owner.key_copy(), list);
}

/// The plaintext hash that the private entry `name` of `c` names, if it does.
pub open spec fn entry_hash(c: Option<PrivateMintContent>, name: Seq<char>) -> Option<Seq<u8>> {
    match c {
        Some(pc) => if pc.entries@.contains_key(name) {
            Some(pc.entries@[name])
        } else {
            None
        },
        None => None,
    }
}

/// The plaintext hashes that the private content `c` names.
pub open spec fn request_hashes(c: Option<PrivateMintContent>) -> Set<Seq<u8>> {
    Set::new(|h: Seq<u8>| exists|name: Seq<char>| #[trigger] entry_hash(c, name) == Some(h))
}

/// No two private entries of `c` name the same plaintext hash.
pub open spec fn hashes_distinct(c: Option<PrivateMintContent>) -> bool {
    forall|n1: Seq<char>, n2: Seq<char>|
        n1 != n2 && #[trigger] entry_hash(c, n1) is Some && #[trigger] entry_hash(c, n2) is Some ==> entry_hash(
            c,
            n1,
        ) != entry_hash(c, n2)
}

/// The plaintext hashes named by the requests before `i`.
pub open spec fn hashes_before<V: DeepCopy>(rs: Seq<MintRequest<V>>, i: int) -> Set<Seq<u8>> {
    Set::new(|h: Seq<u8>| exists|j: int| 0 <= j < i && #[trigger] request_hashes(rs[j].private_content).contains(h))
}

/// No plaintext hash is named twice in the batch.
pub open spec fn no_repeated_hash<V: DeepCopy>(rs: Seq<MintRequest<V>>) -> bool {
    &&& forall|j: int| 0 <= j < rs.len() ==> hashes_distinct(#[trigger] rs[j].private_content)
    &&& forall|j1: int, j2: int, h: Seq<u8>|
        0 <= j1 < j2 < rs.len() && #[trigger] request_hashes(rs[j1].private_content).contains(h)
            ==> !#[trigger] request_hashes(rs[j2].private_content).contains(h)
}

/// Each private entry of the request can be minted for its owner: a cached
/// upload ready to mint, within the size limit, encrypted for the owner and
/// the entry's resolved readers.
pub open spec fn private_request_ok<V: DeepCopy>(vv: PrivateContentView, req: MintRequest<V>) -> bool {
    match req.private_content {
        None => true,
        Some(pc) => forall|name: Seq<char>|
            #[trigger] pc.entries@.contains_key(name) ==> private_mint_problem(
                vv,
                req.token_owner.owner@,
                pc.default_readers@,
                Set::empty(),
                name,
                pc.entries@[name],
            ) is None,
    }
}

/// Each public file of the request can be linked.
pub open spec fn public_request_ok<V: DeepCopy>(pv: PublicContentView, req: MintRequest<V>) -> bool {
    forall|name: Seq<char>|
        #[trigger] entry_file(req.public_content, name) is Some ==> public_file_problem(
            pv,
            entry_file(req.public_content, name).unwrap(),
        ) is None
}

/// The content of the batch passes the checks of a mint.
pub open spec fn mint_batch_valid<V: DeepCopy>(
    pv: PublicContentView,
    vv: PrivateContentView,
    rs: Seq<MintRequest<V>>,
) -> bool {
    &&& forall|j: int| 0 <= j < rs.len() ==> private_request_ok(vv, #[trigger] rs[j])
    &&& forall|j: int| 0 <= j < rs.len() ==> public_request_ok(pv, #[trigger] rs[j])
    &&& no_repeated_hash(rs)
}

/// The memo fits the collection's limit.
pub open spec fn memo_fits(max_memo_size: Option<u128>, memo: Option<Vec<u8>>) -> bool {
    match memo {
        None => true,
        Some(m) => m@.len() <= match max_memo_size {
            Some(n) => n,
            None => DEFAULT_MAX_MEMO_SIZE,
        },
    }
}

/// Every memo of the batch fits the collection's limit.
pub open spec fn memos_fit<V: DeepCopy>(max_memo_size: Option<u128>, rs: Seq<MintRequest<V>>) -> bool {
    forall|j: int| 0 <= j < rs.len() ==> memo_fits(max_memo_size, #[trigger] rs[j].memo)
}

/// What registering a checked batch needs of the collection: the new ids
/// `l`, `l + 1`, ... hold no content yet, and every public file of the
/// batch is an upload in the cache, named once in the batch, and stored
/// apart from the batch's private uploads.
pub open spec fn mint_registrable<V: DeepCopy>(
    pv: PublicContentView,
    vv: PrivateContentView,
    rs: Seq<MintRequest<V>>,
    l: int,
) -> bool {
    &&& forall|j: int|
        0 <= j < rs.len() ==> !#[trigger] vv.nft_private.contains_key((l + j) as u128)
            && !pv.nft_public.contains_key((l + j) as u128)
    &&& forall|j: int, n: Seq<char>|
        0 <= j < rs.len() && #[trigger] entry_file(rs[j].public_content, n) is Some
            ==> pv.temp_file_cache.contains_key(entry_file(rs[j].public_content, n).unwrap())
    &&& forall|j1: int, n1: Seq<char>, j2: int, n2: Seq<char>|
        0 <= j1 < rs.len() && 0 <= j2 < rs.len() && (j1 != j2 || n1 != n2)
            && #[trigger] entry_file(rs[j1].public_content, n1) is Some
            && #[trigger] entry_file(rs[j2].public_content, n2) is Some
            ==> entry_file(rs[j1].public_content, n1) != entry_file(rs[j2].public_content, n2)
    &&& forall|j1: int, n1: Seq<char>, j2: int, h: Seq<u8>|
        0 <= j1 < rs.len() && 0 <= j2 < rs.len() && #[trigger] entry_file(rs[j1].public_content, n1) is Some
            && #[trigger] request_hashes(rs[j2].private_content).contains(h) && vv.premint_cache.contains_key(h)
            ==> vv.premint_cache[h].storage_path != entry_file(rs[j1].public_content, n1).unwrap()
}

/// Minting cached private uploads that are ready to mint, each named once,
/// cannot fail: they leave the cache and the minted tokens stay as they were.
proof fn lemma_private_fold_fresh(v: PrivateContentView, es: Seq<(Seq<char>, Seq<u8>)>, owner: Seq<u8>)
    requires
        forall|i: int|
            0 <= i < es.len() ==> v.premint_cache.contains_key(#[trigger] es[i].1) && (
            v.premint_cache[es[i].1].status == PrivateContentStatus::PendingMinting
                || v.premint_cache[es[i].1].status == PrivateContentStatus::Active),
        forall|i: int, j: int| 0 <= i < j < es.len() ==> #[trigger] es[i].1 != #[trigger] es[j].1,
    ensures
        private_mint_fold(v, es, owner).2 is None,
        private_mint_fold(v, es, owner).0.premint_cache == v.premint_cache.remove_keys(hashes_of(es)),
        private_mint_fold(v, es, owner).0.nft_private == v.nft_private,
    decreases es.len(),
{
    if es.len() == 0 {
        assert(v.premint_cache.remove_keys(hashes_of(es)) =~= v.premint_cache);
    } else {
        let init = es.drop_last();
        lemma_private_fold_fresh(v, init, owner);
        let prev = private_mint_fold(v, init, owner);
        let h = es.last().1;
        assert(es[es.len() - 1].1 == h);
        assert(!hashes_of(init).contains(h)) by {
            if hashes_of(init).contains(h) {
                let i = choose|i: int| 0 <= i < init.len() && #[trigger] init[i].1 == h;
                assert(es[i].1 == es[es.len() - 1].1);
            }
        }
        assert(hashes_of(es) =~= hashes_of(init).insert(h)) by {
            assert forall|q: Seq<u8>| hashes_of(es).contains(q) implies q == h || hashes_of(init).contains(q) by {
                let i = choose|i: int| 0 <= i < es.len() && #[trigger] es[i].1 == q;
                if i < es.len() - 1 {
                    assert(init[i].1 == q);
                }
            }
            assert forall|q: Seq<u8>| hashes_of(init).contains(q) implies hashes_of(es).contains(q) by {
                let i = choose|i: int| 0 <= i < init.len() && #[trigger] init[i].1 == q;
                assert(es[i].1 == q);
            }
        }
        assert(prev.0.premint_cache.remove(h) =~= v.premint_cache.remove_keys(hashes_of(es)));
    }
}

/// The checks of the private content of one mint request, the batch having
/// taken the hashes in `seen`: the request's hashes join `seen`.
fn check_private_request<V: DeepCopy>(
    private: &PrivateContentSystem,
    req: &MintRequest<V>,
    seen: &mut KeyedSet<Sha256Hash>,
) -> (r: Result<(), MintError>)
    ensures
        r is Ok ==> {
            &&& private_request_ok(private@, *req)
            &&& hashes_distinct(req.private_content)
            &&& forall|h: Seq<u8>| #[trigger] request_hashes(req.private_content).contains(h) ==> !old(seen)@.contains(h)
            &&& final(seen)@ == old(seen)@ + request_hashes(req.private_content)
        },
        r is Err ==> r matches Err(MintError::StorageCanisterError(_)),
        private_request_ok(private@, *req) && hashes_distinct(req.private_content) && (forall|h: Seq<u8>|
            #[trigger] request_hashes(req.private_content).contains(h) ==> !old(seen)@.contains(h)) ==> r is Ok,
{
    match &req.private_content {
        Some(pc) => {
            let ghost seen0 = seen@;
            let r = validate_private_mint(private, &req.token_owner.owner, &pc.default_readers, &pc.entries, seen);
            let ghost rg = r;
            proof {
                let m = pc.entries@;
                let c = req.private_content;
                let owner = req.token_owner.owner@;
                let defaults = pc.default_readers@;
                let es = choose|es: Seq<(Seq<char>, Seq<u8>)>|
                    #[trigger] lists_hashes(es, m) && match rg {
                        Ok(()) => (forall|i: int|
                            0 <= i < es.len() ==> #[trigger] private_problem_at(private@, owner, defaults, seen0, es, i)
                                is None) && seen@ == seen0 + hashes_of(es),
                        Err(MintError::StorageCanisterError(msg)) => exists|i: int|
                            0 <= i < es.len() && (forall|j: int|
                                0 <= j < i ==> #[trigger] private_problem_at(private@, owner, defaults, seen0, es, j)
                                    is None) && private_problem_at(private@, owner, defaults, seen0, es, i) == Some(msg@)
                                && seen@ == seen0 + hashes_of(es.take(i + 1)),
                        Err(_) => false,
                    };
                assert(hashes_of(es) =~= request_hashes(c)) by {
                    assert forall|h: Seq<u8>| hashes_of(es).contains(h) implies request_hashes(c).contains(h) by {
                        let i = choose|i: int| 0 <= i < es.len() && #[trigger] es[i].1 == h;
                        assert(m.contains_key(es[i].0));
                        assert(entry_hash(c, es[i].0) == Some(h));
                    }
                    assert forall|h: Seq<u8>| request_hashes(c).contains(h) implies hashes_of(es).contains(h) by {
                        let name = choose|name: Seq<char>| #[trigger] entry_hash(c, name) == Some(h);
                        assert(m.contains_key(name));
                        let i = choose|i: int| 0 <= i < es.len() && es[i].0 == name;
                        assert(es[i].1 == h);
                    }
                }
                if rg is Ok {
                    assert forall|name: Seq<char>| #[trigger] m.contains_key(name) implies private_mint_problem(
                        private@,
                        owner,
                        defaults,
                        Set::empty(),
                        name,
                        m[name],
                    ) is None && !seen0.contains(m[name]) by {
                        let i = choose|i: int| 0 <= i < es.len() && es[i].0 == name;
                        assert(private_problem_at(private@, owner, defaults, seen0, es, i) is None);
                    }
                    assert forall|n1: Seq<char>, n2: Seq<char>|
                        n1 != n2 && #[trigger] entry_hash(c, n1) is Some && #[trigger] entry_hash(c, n2) is Some
                        implies entry_hash(c, n1) != entry_hash(c, n2) by {
                        assert(m.contains_key(n1));
                        assert(m.contains_key(n2));
                        let i1 = choose|i: int| 0 <= i < es.len() && es[i].0 == n1;
                        let i2 = choose|i: int| 0 <= i < es.len() && es[i].0 == n2;
                        if i1 < i2 {
                            assert(es.take(i2)[i1].1 == es[i1].1);
                            assert(hashes_of(es.take(i2)).contains(es[i1].1));
                            assert(private_problem_at(private@, owner, defaults, seen0, es, i2) is None);
                        } else {
                            assert(es.take(i1)[i2].1 == es[i2].1);
                            assert(hashes_of(es.take(i1)).contains(es[i2].1));
                            assert(private_problem_at(private@, owner, defaults, seen0, es, i1) is None);
                        }
                    }
                    assert forall|h: Seq<u8>| #[trigger] request_hashes(c).contains(h) implies !seen0.contains(h) by {
                        let name = choose|name: Seq<char>| #[trigger] entry_hash(c, name) == Some(h);
                        assert(m.contains_key(name));
                    }
                } else if private_request_ok(private@, *req) && hashes_distinct(c) && (forall|h: Seq<u8>|
                    #[trigger] request_hashes(c).contains(h) ==> !seen0.contains(h)) {
                    let i = choose|i: int|
                        0 <= i < es.len() && private_problem_at(private@, owner, defaults, seen0, es, i) is Some;
                    let name = es[i].0;
                    let h = es[i].1;
                    assert(m.contains_key(name));
                    assert(entry_hash(c, name) == Some(h));
                    assert(request_hashes(c).contains(h));
                    assert(!hashes_of(es.take(i)).contains(h)) by {
                        if hashes_of(es.take(i)).contains(h) {
                            let j = choose|j: int| 0 <= j < es.take(i).len() && #[trigger] es.take(i)[j].1 == h;
                            assert(es[j].1 == h);
                            assert(m.contains_key(es[j].0));
                            assert(entry_hash(c, es[j].0) is Some);
                            assert(entry_hash(c, name) is Some);
                        }
                    }
                    assert(private_mint_problem(private@, owner, defaults, Set::empty(), name, m[name]) is None);
                    assert(false);
                }
            }
            r
        },
        None => {
            proof {
                assert(request_hashes(req.private_content) =~= Set::<Seq<u8>>::empty());
                assert(seen@ =~= seen@ + request_hashes(req.private_content));
            }
            Ok(())
        },
    }
}

/// The checks of the public content of one mint request.
fn check_public_request<V: DeepCopy>(public: &PublicContentSystem, req: &MintRequest<V>) -> (r: Result<
    (),
    MintError,
>)
    ensures
        r is Ok <==> public_request_ok(public@, *req),
        r is Err ==> r matches Err(MintError::StorageCanisterError(_)),
{
    match &req.public_content {
        Some(pu) => {
            let r = validate_public_mint(public, &pu.entries);
            let ghost rg = r;
            proof {
                let m = pu.entries@;
                let c = req.public_content;
                let es = choose|es: Seq<(Seq<char>, Seq<char>)>|
                    #[trigger] lists_pairs(es, m) && match rg {
                        Ok(()) => forall|i: int|
                            0 <= i < es.len() ==> #[trigger] public_file_problem(public@, es[i].1) is None,
                        Err(MintError::StorageCanisterError(msg)) => exists|i: int|
                            #[trigger] first_file_problem_at(public@, es, i) && msg@ == public_mint_message(
                                es[i].0,
                                es[i].1,
                                public_file_problem(public@, es[i].1).unwrap(),
                            ),
                        Err(_) => false,
                    };
                if rg is Ok {
                    assert forall|name: Seq<char>| #[trigger] entry_file(c, name) is Some implies public_file_problem(
                        public@,
                        entry_file(c, name).unwrap(),
                    ) is None by {
                        assert(m.contains_key(name));
                        let i = choose|i: int| 0 <= i < es.len() && es[i].0 == name;
                    }
                } else {
                    let i = choose|i: int| #[trigger] first_file_problem_at(public@, es, i);
                    assert(m.contains_key(es[i].0));
                    assert(entry_file(c, es[i].0) is Some);
                }
            }
            r
        },
        None => Ok(()),
    }
}

/// Dropping the cached uploads of request `k`'s private files from the
/// public cache keeps the public files of the requests from `k` on.
proof fn lemma_drop_keeps_batch_files<V: DeepCopy>(
    pb: PublicContentView,
    pv0: PublicContentView,
    vv0: PrivateContentView,
    vb: PrivateContentView,
    rs: Seq<MintRequest<V>>,
    k: int,
    l: int,
)
    requires
        0 <= l,
        l + rs.len() <= u128::MAX,
        mint_batch_valid(pv0, vv0, rs),
        mint_registrable(pv0, vv0, rs, l),
        0 <= k < rs.len(),
        rs[k].private_content is Some,
        forall|j: int, h: Seq<u8>|
            k <= j < rs.len() && #[trigger] request_hashes(rs[j].private_content).contains(h)
                ==> vb.premint_cache.contains_key(h) && vb.premint_cache[h] == vv0.premint_cache[h],
        forall|j: int, n: Seq<char>|
            k <= j < rs.len() && #[trigger] entry_file(rs[j].public_content, n) is Some ==> {
                let p = entry_file(rs[j].public_content, n).unwrap();
                pb.temp_file_cache.contains_key(p) && pb.temp_file_cache[p] == pv0.temp_file_cache[p]
            },
    ensures
        ({
            let pa = without_cached(pb, cached_private_paths(vb, rs[k].private_content.unwrap().entries@));
            &&& pa.nft_public == pb.nft_public
            &&& forall|j: int, n: Seq<char>|
                k <= j < rs.len() && #[trigger] entry_file(rs[j].public_content, n) is Some ==> {
                    let p = entry_file(rs[j].public_content, n).unwrap();
                    pa.temp_file_cache.contains_key(p) && pa.temp_file_cache[p] == pv0.temp_file_cache[p]
                }
        }),
{
    let c = rs[k].private_content;
    let m = c.unwrap().entries@;
    let dropped = cached_private_paths(vb, m);
    assert forall|j: int, n: Seq<char>|
        k <= j < rs.len() && #[trigger] entry_file(rs[j].public_content, n) is Some implies !dropped.contains(
        entry_file(rs[j].public_content, n).unwrap(),
    ) by {
        let p = entry_file(rs[j].public_content, n).unwrap();
        if dropped.contains(p) {
            let name = choose|name: Seq<char>|
                #[trigger] m.contains_key(name) && vb.premint_cache.contains_key(m[name])
                    && vb.premint_cache[m[name]].storage_path == p;
            let h = m[name];
            assert(entry_hash(c, name) == Some(h));
            assert(request_hashes(c).contains(h));
            assert(vv0.premint_cache.contains_key(h));
        }
    }
}

/// Minting request `k`'s private content on checked, registrable content
/// succeeds, and keeps what the later requests need.
proof fn lemma_private_step_fresh<V: DeepCopy>(
    vb: PrivateContentView,
    vv0: PrivateContentView,
    va: PrivateContentView,
    pv0: PublicContentView,
    rs: Seq<MintRequest<V>>,
    k: int,
    l: int,
    r: Result<(), PrivateContentError>,
)
    requires
        0 <= l,
        l + rs.len() <= u128::MAX,
        mint_batch_valid(pv0, vv0, rs),
        mint_registrable(pv0, vv0, rs, l),
        0 <= k < rs.len(),
        rs[k].private_content is Some,
        forall|j: int| k <= j < rs.len() ==> !#[trigger] vb.nft_private.contains_key((l + j) as u128),
        forall|j: int, h: Seq<u8>|
            k <= j < rs.len() && #[trigger] request_hashes(rs[j].private_content).contains(h)
                ==> vb.premint_cache.contains_key(h) && vb.premint_cache[h] == vv0.premint_cache[h],
        !vb.nft_private.contains_key((l + k) as u128) ==> exists|es: Seq<(Seq<char>, Seq<u8>)>|
            #[trigger] lists_hash_pairs(es, rs[k].private_content.unwrap().entries@) && va == private_minted_system(
                vb,
                (l + k) as u128,
                rs[k].private_content.unwrap().default_readers@,
                es,
                rs[k].token_owner.owner@,
            ) && match private_mint_fold(vb, es, rs[k].token_owner.owner@).2 {
                Some(err) => same_error(r, err),
                None => r is Ok,
            },
    ensures
        r is Ok,
        forall|j: int| k < j < rs.len() ==> !#[trigger] va.nft_private.contains_key((l + j) as u128),
        forall|j: int, h: Seq<u8>|
            k < j < rs.len() && #[trigger] request_hashes(rs[j].private_content).contains(h)
                ==> va.premint_cache.contains_key(h) && va.premint_cache[h] == vv0.premint_cache[h],
{
    let c = rs[k].private_content;
    let pc = c.unwrap();
    let m = pc.entries@;
    let owner = rs[k].token_owner.owner@;
    assert(!vb.nft_private.contains_key((l + k) as u128));
    let es = choose|es: Seq<(Seq<char>, Seq<u8>)>|
        #[trigger] lists_hash_pairs(es, m) && va == private_minted_system(vb, (l + k) as u128, pc.default_readers@, es, owner)
            && match private_mint_fold(vb, es, owner).2 {
            Some(err) => same_error(r, err),
            None => r is Ok,
        };
    assert forall|i: int| 0 <= i < es.len() implies vb.premint_cache.contains_key(#[trigger] es[i].1) && (
    vb.premint_cache[es[i].1].status == PrivateContentStatus::PendingMinting
        || vb.premint_cache[es[i].1].status == PrivateContentStatus::Active) by {
        assert(m.contains_key(es[i].0));
        assert(entry_hash(c, es[i].0) == Some(es[i].1));
        assert(request_hashes(c).contains(es[i].1));
        assert(private_request_ok(vv0, rs[k]));
        assert(private_mint_problem(vv0, owner, pc.default_readers@, Set::empty(), es[i].0, m[es[i].0]) is None);
    }
    assert forall|i: int, j: int| 0 <= i < j < es.len() implies #[trigger] es[i].1 != #[trigger] es[j].1 by {
        assert(m.contains_key(es[i].0));
        assert(m.contains_key(es[j].0));
        assert(entry_hash(c, es[i].0) is Some);
        assert(entry_hash(c, es[j].0) is Some);
        assert(hashes_distinct(rs[k].private_content));
    }
    lemma_private_fold_fresh(vb, es, owner);
    assert forall|j: int, h: Seq<u8>|
        k < j < rs.len() && #[trigger] request_hashes(rs[j].private_content).contains(h) implies va.premint_cache.contains_key(
        h,
    ) && va.premint_cache[h] == vv0.premint_cache[h] by {
        if hashes_of(es).contains(h) {
            let i = choose|i: int| 0 <= i < es.len() && #[trigger] es[i].1 == h;
            assert(m.contains_key(es[i].0));
            assert(entry_hash(c, es[i].0) == Some(h));
            assert(request_hashes(c).contains(h));
        }
    }
}

/// Linking request `k`'s public files on checked, registrable content
/// succeeds, and keeps what the later requests need.
proof fn lemma_public_step_fresh<V: DeepCopy>(
    pb: PublicContentView,
    pv0: PublicContentView,
    pa: PublicContentView,
    vv0: PrivateContentView,
    rs: Seq<MintRequest<V>>,
    k: int,
    l: int,
    r: Result<(), PublicContentError>,
)
    requires
        0 <= l,
        l + rs.len() <= u128::MAX,
        mint_batch_valid(pv0, vv0, rs),
        mint_registrable(pv0, vv0, rs, l),
        0 <= k < rs.len(),
        rs[k].public_content is Some,
        forall|j: int| k <= j < rs.len() ==> !#[trigger] pb.nft_public.contains_key((l + j) as u128),
        forall|j: int, n: Seq<char>|
            k <= j < rs.len() && #[trigger] entry_file(rs[j].public_content, n) is Some ==> {
                let p = entry_file(rs[j].public_content, n).unwrap();
                pb.temp_file_cache.contains_key(p) && pb.temp_file_cache[p] == pv0.temp_file_cache[p]
            },
        !pb.nft_public.contains_key((l + k) as u128) ==> exists|failure: Option<LinkFailure>|
            link_outcome(pb, (l + k) as u128, rs[k].public_content.unwrap().entries@, false, pa, failure)
                && mint_answer(failure, r),
    ensures
        r is Ok,
        forall|j: int| k < j < rs.len() ==> !#[trigger] pa.nft_public.contains_key((l + j) as u128),
        forall|j: int, n: Seq<char>|
            k < j < rs.len() && #[trigger] entry_file(rs[j].public_content, n) is Some ==> {
                let p = entry_file(rs[j].public_content, n).unwrap();
                pa.temp_file_cache.contains_key(p) && pa.temp_file_cache[p] == pv0.temp_file_cache[p]
            },
{
    let c = rs[k].public_content;
    let m = c.unwrap().entries@;
    let t = (l + k) as u128;
    assert(!pb.nft_public.contains_key(t));
    let failure = choose|failure: Option<LinkFailure>| link_outcome(pb, t, m, false, pa, failure) && mint_answer(failure, r);
    let (es, lookups) = choose|es: Seq<(Seq<char>, Seq<char>)>, lookups: Seq<Option<PublicEntryView>>|
        #![trigger link_fold(pb, t, es, lookups)]
        lists_pairs(es, m) && lookups_sound(pb, t, es, false, lookups) && pa == linked_system(pb, t, es, lookups)
            && failure == link_fold(pb, t, es, lookups).2;
    assert forall|i: int| 0 <= i < es.len() implies pb.temp_file_cache.contains_key(#[trigger] es[i].1)
        && pb.temp_file_cache[es[i].1].state == UploadState::Finalized by {
        assert(m.contains_key(es[i].0));
        assert(entry_file(c, es[i].0) == Some(es[i].1));
        assert(public_request_ok(pv0, rs[k]));
        assert(pv0.temp_file_cache.contains_key(es[i].1));
        assert(public_file_problem(pv0, es[i].1) is None);
    }
    assert forall|i: int, j: int| 0 <= i < j < es.len() implies #[trigger] es[i].1 != #[trigger] es[j].1 by {
        assert(m.contains_key(es[i].0));
        assert(m.contains_key(es[j].0));
        assert(entry_file(c, es[i].0) is Some);
        assert(entry_file(c, es[j].0) is Some);
    }
    lemma_link_fresh_uploads(pb, t, es, lookups);
    assert forall|j: int, n: Seq<char>|
        k < j < rs.len() && #[trigger] entry_file(rs[j].public_content, n) is Some implies {
        let p = entry_file(rs[j].public_content, n).unwrap();
        pa.temp_file_cache.contains_key(p) && pa.temp_file_cache[p] == pv0.temp_file_cache[p]
    } by {
        let p = entry_file(rs[j].public_content, n).unwrap();
        if paths_of(es).contains(p) {
            let i = choose|i: int| 0 <= i < es.len() && #[trigger] es[i].1 == p;
            assert(m.contains_key(es[i].0));
            assert(entry_file(c, es[i].0) is Some);
        }
    }
    assert forall|j: int| k < j < rs.len() implies !#[trigger] pa.nft_public.contains_key((l + j) as u128) by {
        assert(!pb.nft_public.contains_key((l + j) as u128));
    }
}

/// Registers the tokens `first_id`, `first_id + 1`, ... of the requests and
/// mints their content; `false` when a system's mint refuses, the state
/// then being of no further use.
fn register_mints<V: DeepCopy>(
    ledger: &mut TokenLedger,
    index: &mut KeyedMap<Account, Vec<u128>>,
    public: &mut PublicContentSystem,
    private: &mut PrivateContentSystem,
    requests: &Vec<MintRequest<V>>,
    first_id: u128,
) -> (ok: bool)
    requires
        first_id + requests@.len() <= u128::MAX,
    ensures
        mint_batch_valid(old(public)@, old(private)@, requests@) && mint_registrable(
            old(public)@,
            old(private)@,
            requests@,
            first_id as int,
        ) ==> ok,
        ok ==> final(ledger)@ == ledger_after(old(ledger)@, request_owners(requests@), first_id as int),
        ok ==> final(index)@ == index_after(old(index)@, request_owners(requests@), first_id as int),
        ok ==> mint_content_steps(
            old(public)@,
            old(private)@,
            requests@,
            first_id as int,
            final(public)@,
            final(private)@,
        ),
{
    let ghost owners = request_owners(requests@);
    let ghost l = first_id as int;
    let ghost mut pubs: Seq<PublicContentView> = seq![public@];
    let ghost mut privs: Seq<PrivateContentView> = seq![private@];
    let ghost pv0 = public@;
    let ghost vv0 = private@;
    let ghost good = mint_batch_valid(pv0, vv0, requests@) && mint_registrable(pv0, vv0, requests@, l);
    let mut k: usize = 0;
    assert(owners.take(0) =~= Seq::<Account>::empty());
    proof {
        if good {
            assert forall|j: int, h: Seq<u8>|
                0 <= j < requests@.len() && #[trigger] request_hashes(requests@[j].private_content).contains(h)
                implies private@.premint_cache.contains_key(h) by {
                let c = requests@[j].private_content;
                let name = choose|name: Seq<char>| #[trigger] entry_hash(c, name) == Some(h);
                assert(private_request_ok(vv0, requests@[j]));
                assert(c.unwrap().entries@.contains_key(name));
            }
            assert forall|j: int| 0 <= j < requests@.len() implies !#[trigger] public@.nft_public.contains_key(
                (l + j) as u128,
            ) by {
                assert(!vv0.nft_private.contains_key((l + j) as u128));
            }
        }
    }
    while k < requests.len()
        invariant
            k <= requests@.len(),
            first_id + requests@.len() <= u128::MAX,
            owners == request_owners(requests@),
            l == first_id as int,
            ledger@ == ledger_after(old(ledger)@, owners.take(k as int), l),
            index@ == index_after(old(index)@, owners.take(k as int), l),
            pubs.len() == k + 1,
            privs.len() == k + 1,
            pubs[0] == old(public)@,
            privs[0] == old(private)@,
            pubs[k as int] == public@,
            privs[k as int] == private@,
            pv0 == old(public)@,
            vv0 == old(private)@,
            good == (mint_batch_valid(pv0, vv0, requests@) && mint_registrable(pv0, vv0, requests@, l)),
            good ==> forall|j: int|
                k <= j < requests@.len() ==> !#[trigger] private@.nft_private.contains_key((l + j) as u128),
            good ==> forall|j: int|
                k <= j < requests@.len() ==> !#[trigger] public@.nft_public.contains_key((l + j) as u128),
            good ==> forall|j: int, h: Seq<u8>|
                k <= j < requests@.len() && #[trigger] request_hashes(requests@[j].private_content).contains(h)
                    ==> private@.premint_cache.contains_key(h) && private@.premint_cache[h] == vv0.premint_cache[h],
            good ==> forall|j: int, n: Seq<char>|
                k <= j < requests@.len() && #[trigger] entry_file(requests@[j].public_content, n) is Some ==> {
                    let p = entry_file(requests@[j].public_content, n).unwrap();
                    public@.temp_file_cache.contains_key(p) && public@.temp_file_cache[p] == pv0.temp_file_cache[p]
                },
            forall|i: int|
                0 <= i < k ==> #[trigger] mint_content_step(
                    pubs[i],
                    privs[i],
                    requests@[i],
                    (l + i) as u128,
                    pubs[i + 1],
                    privs[i + 1],
                ),
        decreases requests@.len() - k,
    {
        let t: u128 = first_id + k as u128;
        let req = &requests[k];
        proof {
            assert(owners.take(k as int + 1).drop_last() =~= owners.take(k as int));
            assert(owners.take(k as int + 1).last() == req.token_owner);
        }
        ledger.add_token(&Icrc7Token::new(t, String::new(), None, None, req.token_owner.key_copy()));
        push_owned(index, &req.token_owner, t);
        let ghost pv = public@;
        let ghost vv = private@;
        match &req.private_content {
            Some(pc) => {
                let ghost pb = public@;
                drop_cached_private_paths(public, private, &pc.entries);
                proof {
                    if good {
                        lemma_drop_keeps_batch_files(pb, pv0, vv0, private@, requests@, k as int, l);
                    }
                }
                let ghost vb = private@;
                let r = private.mint_private_content(
                    pc.default_readers.deep_copy(),
                    pc.entries.deep_copy(),
                    t,
                    req.token_owner.owner.key_copy(),
                );
                proof {
                    if good {
                        lemma_private_step_fresh(vb, vv0, private@, pv0, requests@, k as int, l, r);
                    }
                }
                if r.is_err() {
                    return false;
                }
            },
            None => {},
        }
        match &req.public_content {
            Some(pu) => {
                let ghost pb = public@;
                let r = public.mint_public_content(pu.entries.deep_copy(), t);
                proof {
                    if good {
                        lemma_public_step_fresh(pb, pv0, public@, vv0, requests@, k as int, l, r);
                    }
                }
                if r.is_err() {
                    return false;
                }
            },
            None => {},
        }
        proof {
            assert(mint_content_step(pv, vv, requests@[k as int], t, public@, private@));
            pubs = pubs.push(public@);
            privs = privs.push(private@);
        }
        k += 1;
    }
    proof {
        assert(owners.take(k as int) =~= owners);
        assert(mint_content_steps(old(public)@, old(private)@, requests@, l, public@, private@)) by {
            assert(pubs[requests@.len() as int] == public@);
        }
    }
    true
}

/// Mints a batch of tokens: one management call at a time; the batch must
/// fit the batch limit and the supply cap, and every memo the memo limit;
/// each request's private entries must be cached uploads ready to mint for
/// its owner, no hash twice in the batch, and its public files finalized.
/// The tokens take the ids after the last one, each goes to its owner's
/// list, and its content is minted. After the guard and the batch limits,
/// an over-long memo is refused with `InvalidMemo` and any other refusal is
/// a storage error; a minted batch passed every check. A checked batch
/// (`mint_batch_valid`) is minted whenever the collection can register it
/// (`mint_registrable`). A refused batch changes nothing but the metadata
/// of the requests checked before the refused one, which the checks store
/// as they go; a batch whose registration stops changes nothing. Gives the
/// first new id and what the transaction log records.
pub fn mint<V: DeepCopy>(state: &mut CollectionState<V>, requests: Vec<MintRequest<V>>, now_ns: u64) -> (r: Result<
    (u128, Vec<MintRecord>),
    MintError,
>)
    requires
        old(state).last_token_id + requests@.len() <= u128::MAX,
        (forall|i: int| 0 <= i < requests@.len() ==> (#[trigger] requests@[i]).memo is None) || match old(
            state,
        ).settings.max_memo_size {
            Some(n) => n <= usize::MAX,
            None => true,
        },
    ensures
        old(state).guards@.len() >= MAX_CONCURRENT ==> (r matches Err(MintError::ConcurrentManagementCall)),
        old(state).guards@.len() < MAX_CONCURRENT && !batch_fits(
            old(state).settings,
            old(state).ledger@.len() as int,
            requests@.len() as int,
        ) ==> (r matches Err(MintError::ExceedMaxAllowedSupplyCap)),
        old(state).guards@.len() < MAX_CONCURRENT && batch_fits(
            old(state).settings,
            old(state).ledger@.len() as int,
            requests@.len() as int,
        ) ==> {
            &&& !memos_fit(old(state).settings.max_memo_size, requests@) ==> (r matches Err(MintError::InvalidMemo))
            &&& memos_fit(old(state).settings.max_memo_size, requests@) ==> (r is Ok || r matches Err(
                MintError::StorageCanisterError(_),
            ))
            &&& memos_fit(old(state).settings.max_memo_size, requests@) && mint_batch_valid(
                old(state).public@,
                old(state).private@,
                requests@,
            ) && mint_registrable(
                old(state).public@,
                old(state).private@,
                requests@,
                old(state).last_token_id as int,
            ) ==> r is Ok
        },
        r is Ok ==> memos_fit(old(state).settings.max_memo_size, requests@) && mint_batch_valid(
            old(state).public@,
            old(state).private@,
            requests@,
        ),
        r is Err ==> {
            &&& final(state).settings == old(state).settings
            &&& final(state).guards == old(state).guards
            &&& final(state).ledger == old(state).ledger
            &&& final(state).tokens_by_owner == old(state).tokens_by_owner
            &&& final(state).last_token_id == old(state).last_token_id
            &&& final(state).public == old(state).public
            &&& final(state).private == old(state).private
            &&& exists|i: int|
                0 <= i <= requests@.len() && final(state).metadata@ == metadata_after(
                    old(state).metadata@,
                    request_metadata(requests@).take(i),
                    old(state).last_token_id as int,
                )
        },
        r matches Ok((first, records)) ==> {
            let l = old(state).last_token_id as int;
            let n = requests@.len() as int;
            &&& first == l
            &&& final(state).last_token_id == l + n
            &&& final(state).settings == old(state).settings
            &&& final(state).guards == old(state).guards
            &&& final(state).ledger@ == ledger_after(old(state).ledger@, request_owners(requests@), l)
            &&& final(state).tokens_by_owner@ == index_after(
                old(state).tokens_by_owner@,
                request_owners(requests@),
                l,
            )
            &&& final(state).metadata@ == metadata_after(old(state).metadata@, request_metadata(requests@), l)
            &&& mint_content_steps(
                old(state).public@,
                old(state).private@,
                requests@,
                l,
                final(state).public@,
                final(state).private@,
            )
            &&& records@.len() == n
            &&& forall|i: int|
                0 <= i < n ==> {
                    &&& (#[trigger] records@[i]).token_id == l + i
                    &&& records@[i].owner@ == requests@[i].token_owner@
                    &&& memo_view(records@[i].memo) == memo_view(requests@[i].memo)
                    &&& records@[i].timestamp_ns == now_ns
                }
        },
{
    let ghost l = old(state).last_token_id as int;
    let ghost mds = request_metadata(requests@);
    assert(mds.take(0) =~= Seq::<Map<Seq<char>, V::V>>::empty());
    if state.guards.len() >= MAX_CONCURRENT {
        return Err(MintError::ConcurrentManagementCall);
    }
    let count = state.ledger.token_count();
    check_mint_batch(
        requests.len(),
        state.settings.max_update_batch_size,
        state.settings.supply_cap,
        count as u64,
    )?;
    let mut i: usize = 0;
    while i < requests.len()
        invariant
            i <= requests@.len(),
            state == old(state),
            mds == request_metadata(requests@),
            mds.take(0) =~= Seq::<Map<Seq<char>, V::V>>::empty(),
            old(state).guards@.len() < MAX_CONCURRENT,
            batch_fits(old(state).settings, old(state).ledger@.len() as int, requests@.len() as int),
            (forall|j: int| 0 <= j < requests@.len() ==> (#[trigger] requests@[j]).memo is None) || match state.settings.max_memo_size {
                Some(n) => n <= usize::MAX,
                None => true,
            },
            forall|j: int| 0 <= j < i ==> memo_fits(state.settings.max_memo_size, #[trigger] requests@[j].memo),
        decreases requests@.len() - i,
    {
        proof {
            if requests@[i as int].memo is Some {
                assert(!(forall|j: int| 0 <= j < requests@.len() ==> (#[trigger] requests@[j]).memo is None));
            }
        }
        if check_memo(&requests[i].memo, state.settings.max_memo_size).is_err() {
            return Err(MintError::InvalidMemo);
        }
        i += 1;
    }
    let first_id = state.last_token_id;
    let meta_backup = state.metadata.deep_copy();
    let mut seen: KeyedSet<Sha256Hash> = KeyedSet::new();
    let mut i: usize = 0;
    let ghost pv0 = state.public@;
    let ghost vv0 = state.private@;
    let ghost valid = mint_batch_valid(pv0, vv0, requests@);
    assert(mds.take(0) =~= Seq::<Map<Seq<char>, V::V>>::empty());
    assert(seen@ =~= hashes_before(requests@, 0));
    while i < requests.len()
        invariant
            i <= requests@.len(),
            first_id == old(state).last_token_id,
            first_id + requests@.len() <= u128::MAX,
            l == first_id as int,
            mds == request_metadata(requests@),
            old(state).guards@.len() < MAX_CONCURRENT,
            batch_fits(old(state).settings, old(state).ledger@.len() as int, requests@.len() as int),
            meta_backup@ == old(state).metadata@,
            state.settings == old(state).settings,
            state.guards == old(state).guards,
            state.ledger == old(state).ledger,
            state.tokens_by_owner == old(state).tokens_by_owner,
            state.last_token_id == old(state).last_token_id,
            state.public == old(state).public,
            state.private == old(state).private,
            state.metadata@ == metadata_after(old(state).metadata@, mds.take(i as int), l),
            memos_fit(old(state).settings.max_memo_size, requests@),
            pv0 == old(state).public@,
            vv0 == old(state).private@,
            valid == mint_batch_valid(pv0, vv0, requests@),
            seen@ == hashes_before(requests@, i as int),
            forall|j: int|
                0 <= j < i ==> private_request_ok(vv0, #[trigger] requests@[j]) && public_request_ok(pv0, requests@[j])
                    && hashes_distinct(requests@[j].private_content),
            forall|j1: int, j2: int, h: Seq<u8>|
                0 <= j1 < j2 < i && #[trigger] request_hashes(requests@[j1].private_content).contains(h)
                    ==> !#[trigger] request_hashes(requests@[j2].private_content).contains(h),
        decreases requests@.len() - i,
    {
        let req = &requests[i];
        proof {
            if valid {
                assert forall|h: Seq<u8>| #[trigger] request_hashes(req.private_content).contains(h) implies !seen@.contains(
                    h,
                ) by {
                    if seen@.contains(h) {
                        let j = choose|j: int|
                            0 <= j < i && #[trigger] request_hashes(requests@[j].private_content).contains(h);
                        assert(request_hashes(requests@[i as int].private_content).contains(h));
                    }
                }
                assert(private_request_ok(vv0, requests@[i as int]));
                assert(hashes_distinct(requests@[i as int].private_content));
            }
        }
        let ghost seen_before = seen@;
        let v = check_private_request(&state.private, req, &mut seen);
        if let Err(e) = v {
            return Err(e);
        }
        let v = check_public_request(&state.public, req);
        if let Err(e) = v {
            return Err(e);
        }
        proof {
            assert(seen@ =~= hashes_before(requests@, i as int + 1)) by {
                assert forall|h: Seq<u8>| seen@.contains(h) implies hashes_before(requests@, i as int + 1).contains(h) by {
                    if seen_before.contains(h) {
                        let j = choose|j: int|
                            0 <= j < i && #[trigger] request_hashes(requests@[j].private_content).contains(h);
                        assert(request_hashes(requests@[j].private_content).contains(h));
                    } else {
                        assert(request_hashes(requests@[i as int].private_content).contains(h));
                    }
                }
                assert forall|h: Seq<u8>| hashes_before(requests@, i as int + 1).contains(h) implies seen@.contains(h) by {
                    let j = choose|j: int|
                        0 <= j < i + 1 && #[trigger] request_hashes(requests@[j].private_content).contains(h);
                    if j < i {
                        assert(hashes_before(requests@, i as int).contains(h));
                    }
                }
            }
            assert forall|j1: int, j2: int, h: Seq<u8>|
                0 <= j1 < j2 < i + 1 && #[trigger] request_hashes(requests@[j1].private_content).contains(h)
                implies !#[trigger] request_hashes(requests@[j2].private_content).contains(h) by {
                if j2 == i {
                    assert(hashes_before(requests@, i as int).contains(h));
                }
            }
        }
        state.metadata.add_all(first_id + i as u128, &req.metadata);
        proof {
            assert(mds.take(i as int + 1).drop_last() =~= mds.take(i as int));
            assert(mds.take(i as int + 1).last() == req.metadata@);
        }
        i += 1;
    }
    proof {
        assert(mds.take(i as int) =~= mds);
        assert(mint_batch_valid(pv0, vv0, requests@));
    }
    let mut ledger = state.ledger.deep_copy();
    let mut index = state.tokens_by_owner.deep_copy();
    let mut public = state.public.deep_copy();
    let mut private = state.private.deep_copy();
    if !register_mints(&mut ledger, &mut index, &mut public, &mut private, &requests, first_id) {
        state.metadata = meta_backup;
        proof {
            assert(mds.take(0) =~= Seq::<Map<Seq<char>, V::V>>::empty());
        }
        return Err(MintError::StorageCanisterError("Failed to register the content of the minted tokens".to_string()));
    }
    state.ledger = ledger;
    state.tokens_by_owner = index;
    state.public = public;
    state.private = private;
    state.last_token_id = first_id + requests.len() as u128;
    let mut records: Vec<MintRecord> = Vec::new();
    let mut k: usize = 0;
    while k < requests.len()
        invariant
            k <= requests@.len(),
            first_id + requests@.len() <= u128::MAX,
            records@.len() == k,
            forall|j: int|
                0 <= j < k ==> {
                    &&& (#[trigger] records@[j]).token_id == first_id + j
                    &&& records@[j].owner@ == requests@[j].token_owner@
                    &&& memo_view(records@[j].memo) == memo_view(requests@[j].memo)
                    &&& records@[j].timestamp_ns == now_ns
                },
        decreases requests@.len() - k,
    {
        let memo = match &requests[k].memo {
            Some(m) => Some(m.deep_copy()),
            None => None,
        };
        records.push(
            MintRecord {
                token_id: first_id + k as u128,
                owner: requests[k].token_owner.key_copy(),
                memo,
                timestamp_ns: now_ns,
            },
        );
        k += 1;
    }
    Ok((first_id, records))
}

/// Files to append to a token.
pub struct AppendFileRequest {
    pub token_id: u128,
    pub public_content: Option<PublicMintContent>,
}

/// The files of the requests were appended to their tokens in turn, from
/// `pv` to `pv2`, with no failure.
pub open spec fn append_steps(pv: PublicContentView, rs: Seq<AppendFileRequest>, pv2: PublicContentView) -> bool {
    exists|pubs: Seq<PublicContentView>|
        {
            &&& pubs.len() == rs.len() + 1
            &&& pubs[0] == pv
            &&& pubs[rs.len() as int] == pv2
            &&& forall|i: int|
                0 <= i < rs.len() ==> match (#[trigger] rs[i]).public_content {
                    Some(pu) => append_outcome(pubs[i], rs[i].token_id, pu.entries@, pubs[i + 1], None),
                    None => pubs[i + 1] == pubs[i],
                }
        }
}

/// The file that the entry `name` of public content `c` names, if it does.
pub open spec fn entry_file(c: Option<PublicMintContent>, name: Seq<char>) -> Option<Seq<char>> {
    match c {
        Some(pu) => if pu.entries@.contains_key(name) {
            Some(pu.entries@[name])
        } else {
            None
        },
        None => None,
    }
}

/// The token `t` already has an entry of one of the names of `m`.
pub open spec fn append_name_taken(v: PublicContentView, t: u128, m: Map<Seq<char>, Seq<char>>) -> bool {
    v.nft_public.contains_key(t) && exists|name: Seq<char>|
        #[trigger] m.contains_key(name) && v.nft_public[t].entries.contains_key(name)
}

/// The request passes the checks of an append: its token exists, has no
/// entry of the names yet, and every file can be linked.
pub open spec fn append_request_ok(v: PublicContentView, ledger: Map<u128, TokenView>, req: AppendFileRequest) -> bool {
    ledger.contains_key(req.token_id) && match req.public_content {
        None => true,
        Some(pu) => !append_name_taken(v, req.token_id, pu.entries@) && forall|name: Seq<char>|
            #[trigger] pu.entries@.contains_key(name) ==> public_file_problem(v, pu.entries@[name]) is None,
    }
}

/// `e` is what a request that fails the checks of an append is answered:
/// a missing token, else a taken entry name, else the problem of one of its
/// files (a missing one, or an upload not finalized).
pub open spec fn append_refusal(
    v: PublicContentView,
    ledger: Map<u128, TokenView>,
    req: AppendFileRequest,
    e: AppendFileError,
) -> bool {
    if !ledger.contains_key(req.token_id) {
        e is TokenDoesNotExists
    } else {
        match req.public_content {
            None => false,
            Some(pu) => if append_name_taken(v, req.token_id, pu.entries@) {
                e is FileAlreadyExists
            } else {
                exists|name: Seq<char>|
                    #[trigger] pu.entries@.contains_key(name) && match public_file_problem(v, pu.entries@[name]) {
                        Some(LinkFailure::Missing) => e is NotFound,
                        Some(LinkFailure::NotFinalized) => e is InvalidStateTransition,
                        None => false,
                    }
            },
        }
    }
}

/// The request at `i` is the first one of `rs` that fails the checks.
pub open spec fn first_append_refusal(
    v: PublicContentView,
    ledger: Map<u128, TokenView>,
    rs: Seq<AppendFileRequest>,
    i: int,
) -> bool {
    &&& 0 <= i < rs.len()
    &&& !append_request_ok(v, ledger, rs[i])
    &&& forall|j: int| 0 <= j < i ==> append_request_ok(v, ledger, #[trigger] rs[j])
}

/// Every file the requests name is an upload in the cache, and no file is
/// named twice in the batch.
pub open spec fn fresh_append_files(v: PublicContentView, rs: Seq<AppendFileRequest>) -> bool {
    &&& forall|i: int, n: Seq<char>|
        0 <= i < rs.len() && #[trigger] entry_file(rs[i].public_content, n) is Some
            ==> v.temp_file_cache.contains_key(entry_file(rs[i].public_content, n).unwrap())
    &&& forall|i1: int, n1: Seq<char>, i2: int, n2: Seq<char>|
        0 <= i1 < rs.len() && 0 <= i2 < rs.len() && (i1 != i2 || n1 != n2)
            && #[trigger] entry_file(rs[i1].public_content, n1) is Some
            && #[trigger] entry_file(rs[i2].public_content, n2) is Some
            ==> entry_file(rs[i1].public_content, n1) != entry_file(rs[i2].public_content, n2)
}

/// The checks of one append request, answered as `append_refusal` says.
fn check_append_request(public: &PublicContentSystem, ledger: &TokenLedger, req: &AppendFileRequest) -> (r: Result<
    (),
    AppendFileError,
>)
    ensures
        r is Ok <==> append_request_ok(public@, ledger@, *req),
        r matches Err(e) ==> append_refusal(public@, ledger@, *req, e),
{
    if ledger.get_token_by_id(req.token_id).is_none() {
        return Err(AppendFileError::TokenDoesNotExists);
    }
    match &req.public_content {
        Some(pu) => {
            let r = validate_append_request(public, true, req.token_id, &pu.entries);
            let ghost rg = r;
            proof {
                let m = pu.entries@;
                if !append_name_taken(public@, req.token_id, m) {
                    let es = choose|es: Seq<(Seq<char>, Seq<char>)>|
                        #[trigger] lists_pairs(es, m) && match r {
                            Ok(()) => forall|i: int|
                                0 <= i < es.len() ==> #[trigger] public_file_problem(public@, es[i].1) is None,
                            Err(AppendFileError::NotFound) => exists|i: int|
                                #[trigger] first_file_problem_at(public@, es, i) && public_file_problem(
                                    public@,
                                    es[i].1,
                                ) == Some(LinkFailure::Missing),
                            Err(AppendFileError::InvalidStateTransition) => exists|i: int|
                                #[trigger] first_file_problem_at(public@, es, i) && public_file_problem(
                                    public@,
                                    es[i].1,
                                ) == Some(LinkFailure::NotFinalized),
                            Err(_) => false,
                        };
                    match rg {
                        Ok(()) => {
                            assert forall|name: Seq<char>| #[trigger] m.contains_key(name) implies public_file_problem(
                                public@,
                                m[name],
                            ) is None by {
                                let i = choose|i: int| 0 <= i < es.len() && es[i].0 == name;
                                assert(m.contains_key(es[i].0));
                            }
                        },
                        Err(e) => {
                            let i = choose|i: int|
                                #[trigger] first_file_problem_at(public@, es, i) && match e {
                                    AppendFileError::NotFound => public_file_problem(public@, es[i].1) == Some(
                                        LinkFailure::Missing,
                                    ),
                                    _ => public_file_problem(public@, es[i].1) == Some(LinkFailure::NotFinalized),
                                };
                            assert(m.contains_key(es[i].0));
                            assert(public_file_problem(public@, m[es[i].0]) is Some);
                        },
                    }
                }
            }
            r
        },
        None => Ok(()),
    }
}

/// Appends files to tokens: one management call at a time; every token
/// must exist, must not have an entry of any of the names yet, and every
/// file must be a finalized upload, cached or held by a token under that
/// hash. All requests are checked before any is carried out, and the first
/// request that fails the checks decides the answer; a refused call, or one
/// whose appending stops, leaves the public content as it was. A batch that
/// passes the checks and names only cached uploads, each once, is appended.
pub fn append_file(
    guards: &KeyedSet<PrincipalId>,
    ledger: &TokenLedger,
    public: &mut PublicContentSystem,
    requests: Vec<AppendFileRequest>,
) -> (r: Result<(), AppendFileError>)
    ensures
        guards@.len() >= MAX_CONCURRENT ==> (r matches Err(AppendFileError::ConcurrentManagementCall)),
        guards@.len() < MAX_CONCURRENT ==> forall|i: int|
            #[trigger] first_append_refusal(old(public)@, ledger@, requests@, i) ==> (r matches Err(e)
                && append_refusal(old(public)@, ledger@, requests@[i], e)),
        guards@.len() < MAX_CONCURRENT && (forall|i: int|
            0 <= i < requests@.len() ==> append_request_ok(old(public)@, ledger@, #[trigger] requests@[i]))
            && fresh_append_files(old(public)@, requests@) ==> r is Ok,
        (exists|i: int| 0 <= i < requests@.len() && !ledger@.contains_key(#[trigger] requests@[i].token_id))
            ==> r is Err,
        r is Ok ==> forall|i: int|
            0 <= i < requests@.len() ==> append_request_ok(old(public)@, ledger@, #[trigger] requests@[i]),
        r is Err ==> *final(public) == *old(public),
        r is Ok ==> append_steps(old(public)@, requests@, final(public)@),
{
    if guards.len() >= MAX_CONCURRENT {
        return Err(AppendFileError::ConcurrentManagementCall);
    }
    let ghost v = public@;
    let mut i: usize = 0;
    while i < requests.len()
        invariant
            i <= requests@.len(),
            public == old(public),
            v == old(public)@,
            guards@.len() < MAX_CONCURRENT,
            forall|j: int| 0 <= j < i ==> append_request_ok(v, ledger@, #[trigger] requests@[j]),
        decreases requests@.len() - i,
    {
        let c = check_append_request(public, ledger, &requests[i]);
        match c {
            Err(e) => {
                proof {
                    assert forall|i0: int| #[trigger] first_append_refusal(v, ledger@, requests@, i0) implies i0
                        == i by {
                        if i0 < i {
                            assert(append_request_ok(v, ledger@, requests@[i0]));
                        } else if i0 > i {
                            assert(append_request_ok(v, ledger@, requests@[i as int]));
                        }
                    }
                    if exists|j: int| 0 <= j < requests@.len() && !ledger@.contains_key(#[trigger] requests@[j].token_id) {
                    }
                }
                return Err(e);
            },
            Ok(()) => {},
        }
        i += 1;
    }
    proof {
        assert forall|i0: int| !#[trigger] first_append_refusal(v, ledger@, requests@, i0) by {
            if 0 <= i0 < requests@.len() {
                assert(append_request_ok(v, ledger@, requests@[i0]));
            }
        }
        assert forall|j: int| 0 <= j < requests@.len() implies ledger@.contains_key(#[trigger] requests@[j].token_id) by {
            assert(append_request_ok(v, ledger@, requests@[j]));
        }
    }
    let ghost fresh = fresh_append_files(v, requests@);
    let mut work = public.deep_copy();
    let ghost mut pubs: Seq<PublicContentView> = seq![work@];
    let mut k: usize = 0;
    while k < requests.len()
        invariant
            k <= requests@.len(),
            public == old(public),
            v == old(public)@,
            guards@.len() < MAX_CONCURRENT,
            forall|j: int| 0 <= j < requests@.len() ==> append_request_ok(v, ledger@, #[trigger] requests@[j]),
            fresh == fresh_append_files(v, requests@),
            pubs.len() == k + 1,
            pubs[0] == old(public)@,
            pubs[k as int] == work@,
            forall|j: int|
                0 <= j < k ==> match (#[trigger] requests@[j]).public_content {
                    Some(pu) => append_outcome(pubs[j], requests@[j].token_id, pu.entries@, pubs[j + 1], None),
                    None => pubs[j + 1] == pubs[j],
                },
            fresh ==> forall|j: int, n: Seq<char>|
                k <= j < requests@.len() && #[trigger] entry_file(requests@[j].public_content, n) is Some ==> {
                    let p = entry_file(requests@[j].public_content, n).unwrap();
                    work@.temp_file_cache.contains_key(p) && work@.temp_file_cache[p] == v.temp_file_cache[p]
                },
        decreases requests@.len() - k,
    {
        let req = &requests[k];
        let ghost before = work@;
        match &req.public_content {
            Some(pu) => {
                let out = work.append_entries(&pu.entries, req.token_id);
                proof {
                    if fresh {
                        let m = pu.entries@;
                        let (es, lookups) = choose|es: Seq<(Seq<char>, Seq<char>)>, lookups: Seq<Option<PublicEntryView>>|
                            #![trigger link_fold(before, req.token_id, es, lookups)]
                            lists_pairs(es, m) && lookups_sound(before, req.token_id, es, true, lookups)
                                && work@ == appended_system(before, req.token_id, es, lookups) && out == link_fold(
                                before,
                                req.token_id,
                                es,
                                lookups,
                            ).2;
                        assert forall|a: int| 0 <= a < es.len() implies before.temp_file_cache.contains_key(
                            #[trigger] es[a].1,
                        ) && before.temp_file_cache[es[a].1].state == UploadState::Finalized by {
                            assert(m.contains_key(es[a].0));
                            assert(entry_file(requests@[k as int].public_content, es[a].0) is Some);
                            assert(append_request_ok(v, ledger@, requests@[k as int]));
                            assert(public_file_problem(v, m[es[a].0]) is None);
                        }
                        assert forall|a: int, b: int| 0 <= a < b < es.len() implies #[trigger] es[a].1
                            != #[trigger] es[b].1 by {
                            assert(m.contains_key(es[a].0));
                            assert(m.contains_key(es[b].0));
                            assert(entry_file(requests@[k as int].public_content, es[a].0) is Some);
                            assert(entry_file(requests@[k as int].public_content, es[b].0) is Some);
                        }
                        lemma_link_fresh_uploads(before, req.token_id, es, lookups);
                        assert forall|j: int, n: Seq<char>|
                            k + 1 <= j < requests@.len() && #[trigger] entry_file(requests@[j].public_content, n) is Some
                            implies {
                            let p = entry_file(requests@[j].public_content, n).unwrap();
                            work@.temp_file_cache.contains_key(p) && work@.temp_file_cache[p] == v.temp_file_cache[p]
                        } by {
                            let p = entry_file(requests@[j].public_content, n).unwrap();
                            if paths_of(es).contains(p) {
                                let a = choose|a: int| 0 <= a < es.len() && #[trigger] es[a].1 == p;
                                assert(m.contains_key(es[a].0));
                                assert(entry_file(requests@[k as int].public_content, es[a].0) is Some);
                            }
                        }
                    }
                }
                match out {
                    Some(LinkFailure::Missing) => {
                        return Err(AppendFileError::NotFound);
                    },
                    Some(LinkFailure::NotFinalized) => {
                        return Err(AppendFileError::InvalidStateTransition);
                    },
                    None => {},
                }
            },
            None => {},
        }
        proof {
            pubs = pubs.push(work@);
        }
        k += 1;
    }
    *public = work;
    Ok(())
}
/// Before a token is burned: one management call at a time, the token must
/// exist and the caller must own it. Hands back the owner's account, for
/// the transaction log, and the storage canister and path of each private
/// entry of the token, whose files are to be removed from storage.
pub fn burn_nft_plan(
    guards: &KeyedSet<PrincipalId>,
    ledger: &TokenLedger,
    private: &PrivateContentSystem,
    caller: &PrincipalId,
    token_id: u128,
) -> (r: Result<(Account, Vec<(PrincipalId, String)>), BurnNftError>)
    ensures
        guards@.len() >= MAX_CONCURRENT ==> r matches Err(BurnNftError::ConcurrentManagementCall),
        guards@.len() < MAX_CONCURRENT && !ledger@.contains_key(token_id) ==> r matches Err(
            BurnNftError::TokenDoesNotExist,
        ),
        guards@.len() < MAX_CONCURRENT && ledger@.contains_key(token_id) && ledger@[token_id].owner.0 != caller@
            ==> r matches Err(BurnNftError::NotTokenOwner),
        guards@.len() < MAX_CONCURRENT && ledger@.contains_key(token_id) && ledger@[token_id].owner.0 == caller@
            ==> (r matches Ok((owner, files)) && owner@ == ledger@[token_id].owner && (if private@.nft_private.contains_key(
            token_id,
        ) {
            exists|names: Seq<Seq<char>>|
                #[trigger] lists_entry_files(private@.nft_private[token_id].entries, files@, names)
        } else {
            files@.len() == 0
        })),
{
    if guards.len() >= MAX_CONCURRENT {
        return Err(BurnNftError::ConcurrentManagementCall);
    }
    let owner = match ledger.owner_of(token_id) {
        Some(a) => a,
        None => {
            return Err(BurnNftError::TokenDoesNotExist);
        },
    };
    match check_burn(Some(&owner.owner), caller) {
        Err(e) => {
            return Err(e);
        },
        Ok(()) => {},
    }
    let files = private_files_of(private, token_id);
    let r = Ok((owner, files));
    proof {
        if private@.nft_private.contains_key(token_id) {
            let names = choose|names: Seq<Seq<char>>|
                #[trigger] lists_entry_files(private@.nft_private[token_id].entries, files@, names);
            assert(r matches Ok((o, f)) && lists_entry_files(private@.nft_private[token_id].entries, f@, names));
        } else {
            assert(r matches Ok((o, f)) && f@.len() == 0);
        }
    }
    r
}

/// Burns the token `token_id`: it leaves the ledger, and its private
/// content leaves the private content system.
pub fn burn_nft_done(ledger: &mut TokenLedger, private: &mut PrivateContentSystem, token_id: u128)
    ensures
        final(ledger)@ == old(ledger)@.remove(token_id),
        final(private)@ == (PrivateContentView {
            nft_private: old(private)@.nft_private.remove(token_id),
            ..old(private)@
        }),
{
    ledger.remove_token(token_id);
    private.nft_private.remove(&token_id);
}

} // verus!
