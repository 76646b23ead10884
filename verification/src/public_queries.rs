//! Read-only views of the public content: burned tokens whose files can be
//! deleted, and the listings of stored files and of upload states.

use vstd::prelude::*;
use crate::keyed::{DeepCopy, KeyedMap, MapKey};
use crate::public_content::{
    burn_expired, expired_file_view, is_linked_entry, unused_files_of, ExpiredFile,
    PublicContentSystem, PublicContentView, PublicEntry, PublicEntryView,
};
use crate::public_links::every_user_links;
use crate::text::{chars_less, chars_lt, chars_of, lemma_chars_order};
use crate::upload::UploadState;

verus! {

broadcast use vstd::string::group_string_axioms;

/// The views of a token's expired files.
pub open spec fn expired_files_view(fs: Seq<ExpiredFile>) -> Seq<(Seq<char>, Seq<u8>, Seq<char>)> {
    fs.map_values(|x: ExpiredFile| expired_file_view(x))
}

/// What the listing of stored files may hold at the path `p`: the entry of
/// a token that uses the file, found through one token that the index lists
/// for `p`; failing that, the cached upload at `p`.
pub open spec fn listed_file(v: PublicContentView, p: Seq<char>, r: Option<PublicEntryView>) -> bool {
    match r {
        Some(e) => is_linked_entry(v, p, e) || (v.temp_file_cache.contains_key(p) && e
            == v.temp_file_cache[p] && !every_user_links(v, p)),
        None => !v.temp_file_cache.contains_key(p) && !every_user_links(v, p),
    }
}

/// What the listing of upload states may hold at the path `p`: for a file
/// that the index lists, the state of an entry of a token that uses it,
/// found through one token the index lists; for any other path, the state of
/// the cached upload.
pub open spec fn upload_listed(v: PublicContentView, p: Seq<char>, r: Option<UploadState>) -> bool {
    if v.file_to_nfts.contains_key(p) {
        match r {
            Some(s) => exists|e: PublicEntryView| #[trigger] is_linked_entry(v, p, e) && e.state == s,
            None => !every_user_links(v, p),
        }
    } else {
        match r {
            Some(s) => v.temp_file_cache.contains_key(p) && v.temp_file_cache[p].state == s,
            None => !v.temp_file_cache.contains_key(p),
        }
    }
}

/// The paths of `s` strictly increase.
pub open spec fn sorted_by_path(s: Seq<(Seq<char>, UploadState)>) -> bool {
    forall|i: int, j: int| 0 <= i < j < s.len() ==> chars_lt(#[trigger] s[i].0, #[trigger] s[j].0)
}

/// `s` is the full listing of upload states, sorted by path.
pub open spec fn lists_uploads(v: PublicContentView, s: Seq<(Seq<char>, UploadState)>) -> bool {
    &&& sorted_by_path(s)
    &&& forall|i: int| 0 <= i < s.len() ==> upload_listed(v, #[trigger] s[i].0, Some(s[i].1))
    &&& forall|p: Seq<char>|
        !(exists|i: int| 0 <= i < s.len() && #[trigger] s[i].0 == p) ==> #[trigger] upload_listed(
            v,
            p,
            None,
        )
}

/// The views of a listing of upload states.
pub open spec fn uploads_view(r: Seq<(String, UploadState)>) -> Seq<(Seq<char>, UploadState)> {
    r.map_values(|x: (String, UploadState)| (x.0@, x.1))
}

/// Where a page starts: `prev`, or 0 when it is absent or does not fit a `usize`.
pub open spec fn page_start(prev: Option<u128>) -> int {
    match prev {
        Some(n) => if n <= usize::MAX {
            n as int
        } else {
            0
        },
        None => 0,
    }
}

/// How long a page is: `take`, or 100 when it is absent or does not fit a `usize`.
pub open spec fn page_count(take: Option<u128>) -> int {
    match take {
        Some(n) => if n <= usize::MAX {
            n as int
        } else {
            100
        },
        None => 100,
    }
}

/// The page of `s` that starts at `start` and holds at most `count` items.
pub open spec fn page_of<A>(s: Seq<A>, start: int, count: int) -> Seq<A> {
    let lo = if start < s.len() {
        start
    } else {
        s.len() as int
    };
    let hi = if lo + count < s.len() {
        lo + count
    } else {
        s.len() as int
    };
    s.subrange(lo, hi)
}

/// A page of a listing holds the items that follow its start, in order:
/// as many as `take` asks for when that fits a `usize`, and 100 when no
/// `take` is given, but never more than the listing has after the start.
/// Without a `prev` the page starts at the first item.
pub proof fn lemma_page_holds_requested_items<A>(s: Seq<A>, prev: Option<u128>, take: Option<u128>, i: int)
    ensures
        prev is None ==> page_start(prev) == 0,
        ({
            let start = page_start(prev);
            let rest = if start < s.len() {
                s.len() - start
            } else {
                0
            };
            let page = page_of(s, start, page_count(take));
            &&& take is None ==> page.len() == (if rest < 100 {
                rest
            } else {
                100
            })
            &&& (take matches Some(n) && n <= usize::MAX) ==> page.len() == (if rest < take.unwrap() {
                rest
            } else {
                take.unwrap() as int
            })
            &&& 0 <= i < page.len() ==> page[i] == s[start + i]
        }),
{
}

/// A `u128` as a `usize`, or `default` when it does not fit.
fn to_usize_or(n: Option<u128>, default: usize) -> (r: usize)
    ensures
        r == match n {
            Some(n) => if n <= usize::MAX {
                n as usize
            } else {
                default
            },
            None => default,
        },
{
    match n {
        Some(n) => if n <= usize::MAX as u128 {
            n as usize
        } else {
            default
        },
        None => default,
    }
}

/// Puts `(k, st)` into the listing `out`, which is sorted by path and does
/// not hold `k`, where its path belongs.
fn insert_sorted(out: &mut Vec<(String, UploadState)>, k: String, st: UploadState)
    requires
        sorted_by_path(uploads_view(old(out)@)),
        forall|i: int| 0 <= i < old(out)@.len() ==> (#[trigger] old(out)@[i]).0@ != k@,
    ensures
        sorted_by_path(uploads_view(final(out)@)),
        exists|pos: int|
            0 <= pos <= old(out)@.len() && uploads_view(final(out)@) == uploads_view(
                old(out)@,
            ).insert(pos, (k@, st)),
{
    let ghost s = uploads_view(out@);
    let kc = chars_of(k.as_str());
    let mut pos: usize = 0;
    while pos < out.len()
        invariant
            pos <= out@.len(),
            s == uploads_view(out@),
            kc@ == k@,
            forall|j: int| 0 <= j < pos ==> chars_lt(#[trigger] s[j].0, k@),
        ensures
            pos <= out@.len(),
            forall|j: int| 0 <= j < pos ==> chars_lt(#[trigger] s[j].0, k@),
            pos < out@.len() ==> !chars_lt(s[pos as int].0, k@),
        decreases out@.len() - pos,
    {
        let pc = chars_of(out[pos].0.as_str());
        assert(s[pos as int].0 == out@[pos as int].0@);
        if !chars_less(&pc, &kc) {
            break;
        }
        pos += 1;
    }
    proof {
        if pos < s.len() {
            assert(s[pos as int].0 != k@);
            lemma_chars_order(s[pos as int].0, k@, k@);
            assert forall|j: int| pos <= j < s.len() implies chars_lt(k@, #[trigger] s[j].0) by {
                lemma_chars_order(k@, s[pos as int].0, s[j].0);
            }
        }
    }
    let ghost kv = k@;
    out.insert(pos, (k, st));
    proof {
        let t = uploads_view(out@);
        assert(t =~= s.insert(pos as int, (kv, st)));
        assert forall|i: int, j: int| 0 <= i < j < t.len() implies chars_lt(
            #[trigger] t[i].0,
            #[trigger] t[j].0,
        ) by {
            if i < pos && j > pos {
                lemma_chars_order(s[i].0, kv, s[j - 1].0);
            }
        }
    }
}

impl PublicContentSystem {
    /// The tokens burned at least `threshold_ns` before `now_ns` that hold
    /// files no token uses any more, each with those files (entry name,
    /// storage canister, storage path).
    #[verifier::loop_isolation(false)]
    pub fn collect_expired_burned(&self, now_ns: u64, threshold_ns: u64) -> (r: Vec<
        (u128, Vec<ExpiredFile>),
    >)
        ensures
            forall|a: int, b: int| 0 <= a < b < r@.len() ==> #[trigger] r@[a].0 != #[trigger] r@[b].0,
            forall|a: int|
                0 <= a < r@.len() ==> {
                    let x = #[trigger] r@[a];
                    &&& burn_expired(self@, x.0, now_ns, threshold_ns)
                    &&& x.1@.len() > 0
                    &&& expired_files_view(x.1@).no_duplicates()
                    &&& expired_files_view(x.1@).to_set() == unused_files_of(self@, x.0)
                },
            forall|t: u128|
                burn_expired(self@, t, now_ns, threshold_ns) && !unused_files_of(
                    self@,
                    t,
                ).is_empty() ==> exists|a: int| 0 <= a < r@.len() && #[trigger] r@[a].0 == t,
    {
        let mut out: Vec<(u128, Vec<ExpiredFile>)> = Vec::new();
        let n = self.nft_public.len();
        let mut i: usize = 0;
        while i < n
            invariant
                n == self.nft_public.spec_len(),
                self.nft_public.inv(),
                i <= n,
                forall|a: int, b: int| 0 <= a < b < out@.len() ==> #[trigger] out@[a].0 != #[trigger] out@[b].0,
                forall|a: int|
                    0 <= a < out@.len() ==> exists|k: int|
                        0 <= k < i && #[trigger] out@[a].0 == self.nft_public.spec_key_at(k),
                forall|a: int|
                    0 <= a < out@.len() ==> {
                        let x = #[trigger] out@[a];
                        &&& burn_expired(self@, x.0, now_ns, threshold_ns)
                        &&& x.1@.len() > 0
                        &&& expired_files_view(x.1@).no_duplicates()
                        &&& expired_files_view(x.1@).to_set() == unused_files_of(self@, x.0)
                    },
                forall|k: int|
                    0 <= k < i && burn_expired(
                        self@,
                        #[trigger] self.nft_public.spec_key_at(k),
                        now_ns,
                        threshold_ns,
                    ) && !unused_files_of(self@, self.nft_public.spec_key_at(k)).is_empty()
                        ==> exists|a: int| 0 <= a < out@.len() && out@[a].0 == self.nft_public.spec_key_at(k),
            decreases n - i,
        {
            proof {
                self.nft_public.lemma_positions();
            }
            let t = *self.nft_public.key_at(i);
            let record = self.nft_public.value_at(i);
            let expired = match record.burned_at_ns {
                Some(b) => (b as u128) + (threshold_ns as u128) <= now_ns as u128,
                None => false,
            };
            proof {
                assert(self@.nft_public.contains_key(self.nft_public.spec_key_at(i as int)));
                assert(self@.nft_public[t] == record@);
                assert(expired == burn_expired(self@, t, now_ns, threshold_ns));
            }
            if expired {
                let mut files: Vec<ExpiredFile> = Vec::new();
                let m = record.entries.len();
                let mut j: usize = 0;
                while j < m
                    invariant
                        m == record.entries.spec_len(),
                        record.entries.inv(),
                        j <= m,
                        expired_files_view(files@).no_duplicates(),
                        forall|q: int| 0 <= q < files@.len() ==> exists|k: int|
                            0 <= k < j && (#[trigger] files@[q]).0@ == record.entries.spec_key_at(k),
                        expired_files_view(files@).to_set() == Set::new(
                            |x: (Seq<char>, Seq<u8>, Seq<char>)|
                                unused_files_of(self@, t).contains(x) && exists|k: int|
                                    0 <= k < j && x.0 == record.entries.spec_key_at(k),
                        ),
                    decreases m - j,
                {
                    proof {
                        record.entries.lemma_positions();
                    }
                    let e = record.entries.value_at(j);
                    let ghost before = expired_files_view(files@);
                    let ghost name = record.entries.spec_key_at(j as int);
                    if !self.file_to_nfts.contains_key(&e.storage_path) {
                        let item: ExpiredFile = (
                            record.entries.key_at(j).clone(),
                            e.storage_canister_id.deep_copy(),
                            e.storage_path.clone(),
                        );
                        files.push(item);
                        proof {
                            let x = (name, e@.storage_canister_id, e@.storage_path);
                            assert(expired_files_view(files@) =~= before.push(x));
                            assert(!before.contains(x)) by {
                                if before.contains(x) {
                                    let q = choose|q: int| 0 <= q < before.len() && before[q] == x;
                                    assert(files@[q].0@ == name);
                                    let k = choose|k: int| 0 <= k < j && (#[trigger] files@[q]).0@ == record.entries.spec_key_at(k);
                                    assert(record.entries.spec_key_at(k) != record.entries.spec_key_at(j as int));
                                }
                            }
                            before.lemma_push_to_set_commute(x);
                            assert(record@.entries.contains_key(record.entries.spec_key_at(j as int)));
                            assert(record@.entries[name] == e@);
                            assert(self@.nft_public[t].entries[name] == e@);
                            assert(unused_files_of(self@, t).contains(x));
                            assert(expired_files_view(files@).to_set() =~= Set::new(
                                |x: (Seq<char>, Seq<u8>, Seq<char>)|
                                    unused_files_of(self@, t).contains(x) && exists|k: int|
                                        0 <= k < j + 1 && x.0 == record.entries.spec_key_at(k),
                            )) by {
                                assert forall|y: (Seq<char>, Seq<u8>, Seq<char>)| unused_files_of(self@, t).contains(y) && y.0 == name implies y == x by {}
                            }
                        }
                    } else {
                        proof {
                            assert(expired_files_view(files@).to_set() =~= Set::new(
                                |x: (Seq<char>, Seq<u8>, Seq<char>)|
                                    unused_files_of(self@, t).contains(x) && exists|k: int|
                                        0 <= k < j + 1 && x.0 == record.entries.spec_key_at(k),
                            )) by {
                                assert forall|y: (Seq<char>, Seq<u8>, Seq<char>)| unused_files_of(self@, t).contains(y) implies y.0 != name by {}
                            }
                        }
                    }
                    j += 1;
                }
                proof {
                    record.entries.lemma_positions();
                    assert(expired_files_view(files@).to_set() =~= unused_files_of(self@, t)) by {
                        assert forall|y: (Seq<char>, Seq<u8>, Seq<char>)| unused_files_of(self@, t).contains(y) implies exists|k: int|
                            0 <= k < m && y.0 == record.entries.spec_key_at(k) by {
                            let k = record.entries.spec_index_of(y.0);
                            assert(record.entries.spec_key_at(k) == y.0);
                        }
                    }
                }
                if files.len() > 0 {
                    let ghost before = out@;
                    out.push((t, files));
                    proof {
                        assert forall|k: int|
                            0 <= k < i + 1 && burn_expired(
                                self@,
                                #[trigger] self.nft_public.spec_key_at(k),
                                now_ns,
                                threshold_ns,
                            ) && !unused_files_of(self@, self.nft_public.spec_key_at(k)).is_empty()
                            implies exists|a: int| 0 <= a < out@.len() && out@[a].0 == self.nft_public.spec_key_at(k) by {
                            if k < i {
                                let a = choose|a: int| 0 <= a < before.len() && before[a].0 == self.nft_public.spec_key_at(k);
                                assert(out@[a] == before[a]);
                            } else {
                                assert(out@[before.len() as int].0 == t);
                            }
                        }
                        assert forall|a: int| 0 <= a < before.len() implies (#[trigger] out@[a]).0 != t by {
                            let k = choose|k: int| 0 <= k < i && #[trigger] before[a].0 == self.nft_public.spec_key_at(k);
                            assert(self.nft_public.spec_key_at(k) != self.nft_public.spec_key_at(i as int));
                        }
                    }
                } else {
                    proof {
                        assert(expired_files_view(files@).to_set() =~= Set::empty());
                    }
                }
            }
            i += 1;
        }
        proof {
            self.nft_public.lemma_positions();
            assert forall|t: u128|
                burn_expired(self@, t, now_ns, threshold_ns) && !unused_files_of(
                    self@,
                    t,
                ).is_empty() implies exists|a: int| 0 <= a < out@.len() && #[trigger] out@[a].0 == t by {
                let k = self.nft_public.spec_index_of(t);
                assert(self.nft_public.spec_key_at(k) == t);
            }
        }
        out
    }
}

impl PublicContentSystem {
    /// One page of the upload states of all stored files, sorted by path:
    /// the files that tokens use, then the cached uploads of other paths.
    /// The page starts after `prev` items and holds at most `take` items.
    #[verifier::loop_isolation(false)]
    pub fn get_paginated_uploads(&self, prev: Option<u128>, take: Option<u128>) -> (r: Vec<
        (String, UploadState),
    >)
        ensures
            exists|s: Seq<(Seq<char>, UploadState)>|
                #![trigger lists_uploads(self@, s)]
                lists_uploads(self@, s) && uploads_view(r@) == page_of(
                    s,
                    page_start(prev),
                    page_count(take),
                ),
    {
        let start = to_usize_or(prev, 0);
        let count = to_usize_or(take, 100);
        let mut combined: Vec<(String, UploadState)> = Vec::new();
        let n = self.file_to_nfts.len();
        let mut i: usize = 0;
        while i < n
            invariant
                n == self.file_to_nfts.spec_len(),
                self.file_to_nfts.inv(),
                i <= n,
                sorted_by_path(uploads_view(combined@)),
                forall|a: int|
                    0 <= a < combined@.len() ==> exists|k: int|
                        0 <= k < i && (#[trigger] combined@[a]).0@ == self.file_to_nfts.spec_key_at(k),
                forall|a: int|
                    0 <= a < combined@.len() ==> upload_listed(
                        self@,
                        #[trigger] uploads_view(combined@)[a].0,
                        Some(uploads_view(combined@)[a].1),
                    ),
                forall|k: int|
                    0 <= k < i && !(exists|a: int|
                        0 <= a < combined@.len() && #[trigger] combined@[a].0@
                            == self.file_to_nfts.spec_key_at(k)) ==> upload_listed(
                        self@,
                        #[trigger] self.file_to_nfts.spec_key_at(k),
                        None,
                    ),
            decreases n - i,
        {
            proof {
                self.file_to_nfts.lemma_positions();
            }
            let p = self.file_to_nfts.key_at(i);
            let ghost before = combined@;
            match self.find_shared_entry(p) {
                Some(e) => {
                    proof {
                        assert forall|a: int| 0 <= a < before.len() implies (#[trigger] before[a]).0@ != p@ by {
                            let k = choose|k: int| 0 <= k < i && (#[trigger] before[a]).0@ == self.file_to_nfts.spec_key_at(k);
                            assert(self.file_to_nfts.spec_key_at(k) != self.file_to_nfts.spec_key_at(i as int));
                        }
                        assert(self@.file_to_nfts.contains_key(p@));
                        assert(upload_listed(self@, p@, Some(e.state)));
                    }
                    insert_sorted(&mut combined, p.clone(), e.state);
                    proof {
                        let pos = choose|pos: int|
                            0 <= pos <= before.len() && uploads_view(combined@) == uploads_view(
                                before,
                            ).insert(pos, (p@, e.state));
                        uploads_view(before).insert_ensures(pos, (p@, e.state));
                        assert forall|a: int| 0 <= a < combined@.len() implies exists|k: int|
                            0 <= k < i + 1 && (#[trigger] combined@[a]).0@ == self.file_to_nfts.spec_key_at(k) by {
                            assert(combined@[a].0@ == uploads_view(combined@)[a].0);
                            if a < pos {
                                assert(uploads_view(before)[a].0 == before[a].0@);
                            } else if a > pos {
                                assert(uploads_view(before)[a - 1].0 == before[a - 1].0@);
                            }
                        }
                        assert forall|a: int| 0 <= a < combined@.len() implies upload_listed(
                            self@,
                            #[trigger] uploads_view(combined@)[a].0,
                            Some(uploads_view(combined@)[a].1),
                        ) by {
                            if a < pos {
                                assert(uploads_view(combined@)[a] == uploads_view(before)[a]);
                            } else if a > pos {
                                assert(uploads_view(combined@)[a] == uploads_view(before)[a - 1]);
                            }
                        }
                        assert forall|k: int|
                            0 <= k < i + 1 && !(exists|a: int|
                                0 <= a < combined@.len() && #[trigger] combined@[a].0@
                                    == self.file_to_nfts.spec_key_at(k)) implies upload_listed(
                            self@,
                            #[trigger] self.file_to_nfts.spec_key_at(k),
                            None,
                        ) by {
                            if k == i {
                                assert(combined@[pos].0@ == uploads_view(combined@)[pos].0);
                            } else {
                                assert forall|a: int| 0 <= a < before.len() implies #[trigger] before[a].0@
                                    != self.file_to_nfts.spec_key_at(k) by {
                                    if a < pos {
                                        assert(combined@[a].0@ == uploads_view(combined@)[a].0);
                                        assert(uploads_view(before)[a].0 == before[a].0@);
                                    } else {
                                        assert(combined@[a + 1].0@ == uploads_view(combined@)[a + 1].0);
                                        assert(uploads_view(before)[a].0 == before[a].0@);
                                    }
                                }
                            }
                        }
                    }
                },
                None => {
                    proof {
                        assert(self@.file_to_nfts.contains_key(p@));
                        assert(upload_listed(self@, p@, None));
                    }
                },
            }
            i += 1;
        }
        proof {
            self.file_to_nfts.lemma_positions();
            assert forall|a: int| 0 <= a < combined@.len() implies self@.file_to_nfts.contains_key(
                (#[trigger] combined@[a]).0@,
            ) by {
                let k = choose|k: int| 0 <= k < n && (#[trigger] combined@[a]).0@ == self.file_to_nfts.spec_key_at(k);
                assert(self@.file_to_nfts.contains_key(self.file_to_nfts.spec_key_at(k)));
            }
            assert forall|q: Seq<char>|
                self@.file_to_nfts.contains_key(q) && !(exists|a: int|
                    0 <= a < combined@.len() && #[trigger] combined@[a].0@ == q)
                implies upload_listed(self@, q, None) by {
                let k = self.file_to_nfts.spec_index_of(q);
                assert(self.file_to_nfts.spec_key_at(k) == q);
            }
        }
        let m = self.temp_file_cache.len();
        let mut j: usize = 0;
        while j < m
            invariant
                m == self.temp_file_cache.spec_len(),
                self.temp_file_cache.inv(),
                j <= m,
                sorted_by_path(uploads_view(combined@)),
                forall|a: int|
                    0 <= a < combined@.len() ==> upload_listed(
                        self@,
                        #[trigger] uploads_view(combined@)[a].0,
                        Some(uploads_view(combined@)[a].1),
                    ),
                forall|a: int|
                    0 <= a < combined@.len() ==> self@.file_to_nfts.contains_key(
                        (#[trigger] combined@[a]).0@,
                    ) || exists|k: int|
                        0 <= k < j && combined@[a].0@ == self.temp_file_cache.spec_key_at(k),
                forall|q: Seq<char>|
                    #![trigger upload_listed(self@, q, None)]
                    (self@.file_to_nfts.contains_key(q) || exists|k: int|
                        0 <= k < j && q == self.temp_file_cache.spec_key_at(k)) && !(exists|a: int|
                        0 <= a < combined@.len() && #[trigger] combined@[a].0@ == q)
                        ==> upload_listed(self@, q, None),
            decreases m - j,
        {
            proof {
                self.temp_file_cache.lemma_positions();
            }
            let p = self.temp_file_cache.key_at(j);
            let ghost before = combined@;
            if !self.file_to_nfts.contains_key(p) {
                let st = self.temp_file_cache.value_at(j).state;
                proof {
                    assert forall|a: int| 0 <= a < before.len() implies (#[trigger] before[a]).0@ != p@ by {
                        if !self@.file_to_nfts.contains_key(before[a].0@) {
                            let k = choose|k: int| 0 <= k < j && before[a].0@ == self.temp_file_cache.spec_key_at(k);
                            assert(self.temp_file_cache.spec_key_at(k) != self.temp_file_cache.spec_key_at(j as int));
                        }
                    }
                    assert(self@.temp_file_cache.contains_key(p@));
                    assert(upload_listed(self@, p@, Some(st)));
                }
                insert_sorted(&mut combined, p.clone(), st);
                proof {
                    let pos = choose|pos: int|
                        0 <= pos <= before.len() && uploads_view(combined@) == uploads_view(
                            before,
                        ).insert(pos, (p@, st));
                    uploads_view(before).insert_ensures(pos, (p@, st));
                    assert forall|a: int| 0 <= a < combined@.len() implies upload_listed(
                        self@,
                        #[trigger] uploads_view(combined@)[a].0,
                        Some(uploads_view(combined@)[a].1),
                    ) by {
                        if a < pos {
                            assert(uploads_view(combined@)[a] == uploads_view(before)[a]);
                        } else if a > pos {
                            assert(uploads_view(combined@)[a] == uploads_view(before)[a - 1]);
                        }
                    }
                    assert forall|a: int| 0 <= a < combined@.len() implies self@.file_to_nfts.contains_key(
                        (#[trigger] combined@[a]).0@,
                    ) || exists|k: int|
                        0 <= k < j + 1 && combined@[a].0@ == self.temp_file_cache.spec_key_at(k) by {
                        assert(combined@[a].0@ == uploads_view(combined@)[a].0);
                        if a < pos {
                            assert(uploads_view(before)[a].0 == before[a].0@);
                        } else if a > pos {
                            assert(uploads_view(before)[a - 1].0 == before[a - 1].0@);
                        }
                    }
                    assert forall|q: Seq<char>|
                        (self@.file_to_nfts.contains_key(q) || exists|k: int|
                            0 <= k < j + 1 && q == self.temp_file_cache.spec_key_at(k)) && !(exists|a: int|
                            0 <= a < combined@.len() && #[trigger] combined@[a].0@ == q)
                        implies upload_listed(self@, q, None) by {
                        assert(combined@[pos].0@ == uploads_view(combined@)[pos].0);
                        assert forall|a: int| 0 <= a < before.len() implies #[trigger] before[a].0@ != q by {
                            if a < pos {
                                assert(combined@[a].0@ == uploads_view(combined@)[a].0);
                                assert(uploads_view(before)[a].0 == before[a].0@);
                            } else {
                                assert(combined@[a + 1].0@ == uploads_view(combined@)[a + 1].0);
                                assert(uploads_view(before)[a].0 == before[a].0@);
                            }
                        }
                    }
                }
            } else {
                proof {
                    assert forall|q: Seq<char>|
                        (self@.file_to_nfts.contains_key(q) || exists|k: int|
                            0 <= k < j + 1 && q == self.temp_file_cache.spec_key_at(k)) && !(exists|a: int|
                            0 <= a < combined@.len() && #[trigger] combined@[a].0@ == q)
                        implies upload_listed(self@, q, None) by {
                        if !self@.file_to_nfts.contains_key(q) {
                            let k = choose|k: int| 0 <= k < j + 1 && q == self.temp_file_cache.spec_key_at(k);
                            if k == j {
                                assert(self@.file_to_nfts.contains_key(p@));
                            }
                        }
                    }
                }
            }
            j += 1;
        }
        let ghost s = uploads_view(combined@);
        proof {
            self.file_to_nfts.lemma_positions();
            self.temp_file_cache.lemma_positions();
            assert forall|i: int| 0 <= i < s.len() implies upload_listed(self@, #[trigger] s[i].0, Some(s[i].1)) by {
                assert(uploads_view(combined@)[i] == s[i]);
            }
            assert forall|q: Seq<char>|
                !(exists|i: int| 0 <= i < s.len() && #[trigger] s[i].0 == q) implies #[trigger] upload_listed(
                self@,
                q,
                None,
            ) by {
                assert forall|a: int| 0 <= a < combined@.len() implies #[trigger] combined@[a].0@ != q by {
                    assert(s[a].0 == combined@[a].0@);
                }
                if self@.file_to_nfts.contains_key(q) {
                } else if self@.temp_file_cache.contains_key(q) {
                    let k = self.temp_file_cache.spec_index_of(q);
                    assert(q == self.temp_file_cache.spec_key_at(k));
                } else {
                }
            }
            assert(lists_uploads(self@, s));
        }
        let len = combined.len();
        let lo = if start < len {
            start
        } else {
            len
        };
        let hi = if count < len - lo {
            lo + count
        } else {
            len
        };
        let mut page: Vec<(String, UploadState)> = Vec::new();
        let mut k: usize = lo;
        while k < hi
            invariant
                lo <= k <= hi,
                hi <= combined@.len(),
                uploads_view(page@) == s.subrange(lo as int, k as int),
                s == uploads_view(combined@),
            decreases hi - k,
        {
            let item = (combined[k].0.clone(), combined[k].1);
            page.push(item);
            proof {
                assert(uploads_view(page@) =~= s.subrange(lo as int, k + 1));
            }
            k += 1;
        }
        proof {
            assert(uploads_view(page@) == page_of(s, page_start(prev), page_count(take)));
        }
        page
    }
}

impl PublicContentSystem {
    /// Every stored file by path: for a file that tokens use, an entry of one
    /// of them; for any other path, the cached upload.
    #[verifier::loop_isolation(false)]
    pub fn get_all_files(&self) -> (r: KeyedMap<String, PublicEntry>)
        ensures
            forall|p: Seq<char>|
                #![trigger r@.contains_key(p)]
                listed_file(
                    self@,
                    p,
                    if r@.contains_key(p) {
                        Some(r@[p])
                    } else {
                        None
                    },
                ),
    {
        let mut out: KeyedMap<String, PublicEntry> = KeyedMap::new();
        let n = self.file_to_nfts.len();
        let mut i: usize = 0;
        while i < n
            invariant
                n == self.file_to_nfts.spec_len(),
                self.file_to_nfts.inv(),
                i <= n,
                forall|q: Seq<char>| #[trigger] out@.contains_key(q) ==> is_linked_entry(self@, q, out@[q]),
                forall|k: int|
                    0 <= k < i && !out@.contains_key(#[trigger] self.file_to_nfts.spec_key_at(k))
                        ==> !every_user_links(self@, self.file_to_nfts.spec_key_at(k)),
            decreases n - i,
        {
            let p = self.file_to_nfts.key_at(i);
            match self.find_shared_entry(p) {
                Some(e) => {
                    out.insert(p.clone(), e.deep_copy());
                },
                None => {},
            }
            i += 1;
        }
        proof {
            self.file_to_nfts.lemma_positions();
            assert forall|q: Seq<char>| !out@.contains_key(q) implies !every_user_links(self@, q) by {
                if self@.file_to_nfts.contains_key(q) {
                    let k = self.file_to_nfts.spec_index_of(q);
                    assert(self.file_to_nfts.spec_key_at(k) == q);
                }
            }
        }
        let m = self.temp_file_cache.len();
        let mut j: usize = 0;
        while j < m
            invariant
                m == self.temp_file_cache.spec_len(),
                self.temp_file_cache.inv(),
                j <= m,
                forall|q: Seq<char>|
                    #[trigger] out@.contains_key(q) ==> is_linked_entry(self@, q, out@[q]) || (
                    self@.temp_file_cache.contains_key(q) && out@[q] == self@.temp_file_cache[q]
                        && !every_user_links(self@, q)),
                forall|q: Seq<char>| !#[trigger] out@.contains_key(q) ==> !every_user_links(self@, q),
                forall|k: int| 0 <= k < j ==> out@.contains_key(#[trigger] self.temp_file_cache.spec_key_at(k)),
            decreases m - j,
        {
            proof {
                self.temp_file_cache.lemma_positions();
            }
            let p = self.temp_file_cache.key_at(j);
            if !out.contains_key(p) {
                proof {
                    assert(self@.temp_file_cache.contains_key(p@));
                }
                out.insert(p.clone(), self.temp_file_cache.value_at(j).deep_copy());
            }
            j += 1;
        }
        proof {
            self.temp_file_cache.lemma_positions();
            assert forall|q: Seq<char>| !out@.contains_key(q) implies !self@.temp_file_cache.contains_key(q) by {
                if self@.temp_file_cache.contains_key(q) {
                    let k = self.temp_file_cache.spec_index_of(q);
                    assert(self.temp_file_cache.spec_key_at(k) == q);
                }
            }
        }
        out
    }
}

} // verus!
