//! What every operation on public content keeps: the two file indexes agree
//! with each other and hold no empty set.

use vstd::prelude::*;
use crate::public_content::{
    files_of, spec_burned, with_cache_entry, with_nft_entry,
    PublicContentView, PublicEntryView,
};
use crate::public_links::{link_fold, link_outcome, link_step, linked_system, with_link};

verus! {

/// The index from files to tokens lists `t` for the file `f`.
pub open spec fn uses(v: PublicContentView, f: Seq<char>, t: u128) -> bool {
    v.file_to_nfts.contains_key(f) && v.file_to_nfts[f].contains(t)
}

/// The index from tokens to files lists `f` for the token `t`.
pub open spec fn holds(v: PublicContentView, t: u128, f: Seq<char>) -> bool {
    v.nft_to_files.contains_key(t) && v.nft_to_files[t].contains(f)
}

/// The index from files to tokens and the index from tokens to files say the
/// same thing, and neither keeps an empty set.
pub open spec fn index_consistent(v: PublicContentView) -> bool {
    &&& forall|f: Seq<char>, t: u128|
        #![trigger uses(v, f, t)]
        #![trigger holds(v, t, f)]
        uses(v, f, t) <==> holds(v, t, f)
    &&& forall|f: Seq<char>| #[trigger] v.file_to_nfts.contains_key(f) ==> !v.file_to_nfts[f].is_empty()
    &&& forall|t: u128| #[trigger] v.nft_to_files.contains_key(t) ==> !v.nft_to_files[t].is_empty()
}

/// Consistency depends on the two indexes alone.
proof fn lemma_same_indexes(a: PublicContentView, b: PublicContentView)
    requires
        a.file_to_nfts == b.file_to_nfts,
        a.nft_to_files == b.nft_to_files,
    ensures
        index_consistent(a) == index_consistent(b),
{
    assert forall|f: Seq<char>, t: u128| uses(a, f, t) == uses(b, f, t) && holds(a, t, f) == holds(b, t, f) by {}
}

/// Recording one more user of a file keeps the indexes consistent.
proof fn lemma_with_link_keeps_index(v: PublicContentView, t: u128, f: Seq<char>)
    requires
        index_consistent(v),
    ensures
        index_consistent(with_link(v, t, f)),
{
    let w = with_link(v, t, f);
    assert forall|g: Seq<char>, u: u128| uses(w, g, u) <==> holds(w, u, g) by {
        if g != f || u != t {
            assert(uses(w, g, u) == uses(v, g, u));
            assert(holds(w, u, g) == holds(v, u, g));
        } else {
            assert(w.file_to_nfts[f].contains(t));
            assert(w.nft_to_files[t].contains(f));
        }
    }
    assert forall|g: Seq<char>| #[trigger] w.file_to_nfts.contains_key(g) implies !w.file_to_nfts[g].is_empty() by {
        if g == f {
            assert(w.file_to_nfts[g].contains(t));
        } else {
            assert(v.file_to_nfts.contains_key(g));
        }
    }
    assert forall|u: u128| #[trigger] w.nft_to_files.contains_key(u) implies !w.nft_to_files[u].is_empty() by {
        if u == t {
            assert(w.nft_to_files[u].contains(f));
        } else {
            assert(v.nft_to_files.contains_key(u));
        }
    }
}

/// Linking entries one after the other keeps the indexes consistent.
proof fn lemma_link_fold_keeps_index(
    v: PublicContentView,
    t: u128,
    es: Seq<(Seq<char>, Seq<char>)>,
    lookups: Seq<Option<PublicEntryView>>,
)
    requires
        index_consistent(v),
    ensures
        index_consistent(link_fold(v, t, es, lookups).0),
    decreases es.len(),
{
    if es.len() > 0 {
        lemma_link_fold_keeps_index(v, t, es.drop_last(), lookups);
        let prev = link_fold(v, t, es.drop_last(), lookups);
        if prev.2 is None {
            let p = es.last().1;
            let w = prev.0;
            let w1 = if w.temp_file_cache.contains_key(p) {
                PublicContentView { temp_file_cache: w.temp_file_cache.remove(p), ..w }
            } else {
                w
            };
            lemma_same_indexes(w, w1);
            let e = if w.temp_file_cache.contains_key(p) {
                Some(w.temp_file_cache[p])
            } else {
                lookups[es.len() - 1]
            };
            assert(link_fold(v, t, es, lookups) == link_step(w, prev.1, t, es.last().0, p, lookups[es.len() - 1]));
            if let Some(e) = e {
                lemma_with_link_keeps_index(w1, t, e.storage_path);
            }
        }
    }
}

/// Minting public content or appending files to a token, whether it
/// succeeds or stops at a failure, keeps the file indexes consistent.
pub proof fn lemma_linking_keeps_index(
    v: PublicContentView,
    t: u128,
    m: Map<Seq<char>, Seq<char>>,
    by_hash: bool,
    fin: PublicContentView,
    failure: Option<crate::public_links::LinkFailure>,
)
    requires
        index_consistent(v),
        link_outcome(v, t, m, by_hash, fin, failure),
    ensures
        index_consistent(fin),
{
    let (es, lookups) = choose|
        es: Seq<(Seq<char>, Seq<char>)>,
        lookups: Seq<Option<PublicEntryView>>,
    |
        #![trigger link_fold(v, t, es, lookups)]
        crate::public_links::lists_pairs(es, m) && crate::public_links::lookups_sound(
            v,
            t,
            es,
            by_hash,
            lookups,
        ) && fin == linked_system(v, t, es, lookups) && failure == link_fold(v, t, es, lookups).2;
    lemma_link_fold_keeps_index(v, t, es, lookups);
    lemma_same_indexes(fin, link_fold(v, t, es, lookups).0);
}

/// Burning a token keeps the file indexes consistent, and afterwards no
/// index mentions the token.
pub proof fn lemma_burn_keeps_index(v: PublicContentView, t: u128, timestamp: u64)
    requires
        index_consistent(v),
    ensures
        index_consistent(spec_burned(v, t, timestamp)),
        forall|f: Seq<char>| !uses(spec_burned(v, t, timestamp), f, t) && !holds(
            spec_burned(v, t, timestamp),
            t,
            f,
        ),
{
    let w = spec_burned(v, t, timestamp);
    let files = files_of(v, t);
    assert forall|g: Seq<char>, u: u128| uses(w, g, u) <==> holds(w, u, g) by {
        if uses(w, g, u) {
            if files.contains(g) {
                assert(v.file_to_nfts[g].remove(t).contains(u));
            }
            assert(uses(v, g, u));
            if u == t {
                assert(holds(v, t, g));
            }
            assert(holds(v, u, g));
        }
        if holds(w, u, g) {
            assert(holds(v, u, g));
            assert(uses(v, g, u));
            if files.contains(g) {
                assert(v.file_to_nfts[g].remove(t).contains(u));
            }
        }
    }
    assert forall|g: Seq<char>| #[trigger] w.file_to_nfts.contains_key(g) implies !w.file_to_nfts[g].is_empty() by {
        if !files.contains(g) {
            assert(!v.file_to_nfts[g].is_empty());
        }
    }
    assert forall|f: Seq<char>| !uses(w, f, t) && !holds(w, t, f) by {
        if uses(w, f, t) && !files.contains(f) {
            assert(uses(v, f, t));
            assert(holds(v, t, f));
        }
    }
}

/// Replacing a cached upload or an entry of a token leaves the file
/// indexes as they were.
pub proof fn lemma_entry_updates_keep_index(
    v: PublicContentView,
    p: Seq<char>,
    t: u128,
    name: Seq<char>,
    e: PublicEntryView,
)
    ensures
        with_cache_entry(v, p, e).file_to_nfts == v.file_to_nfts,
        with_cache_entry(v, p, e).nft_to_files == v.nft_to_files,
        with_nft_entry(v, t, name, e).file_to_nfts == v.file_to_nfts,
        with_nft_entry(v, t, name, e).nft_to_files == v.nft_to_files,
        index_consistent(v) ==> index_consistent(with_cache_entry(v, p, e)) && index_consistent(
            with_nft_entry(v, t, name, e),
        ),
{
    lemma_same_indexes(v, with_cache_entry(v, p, e));
    lemma_same_indexes(v, with_nft_entry(v, t, name, e));
}

} // verus!
