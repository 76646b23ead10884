//! The metadata store: named values of each token, the collection's own
//! kept under token 0.

use vstd::prelude::*;
use crate::keyed::{DeepCopy, KeyedMap};
use crate::ledger::TokenLedger;

verus! {

/// The token a piece of data belongs to; data of the collection itself
/// belongs to token 0.
pub open spec fn token_key(nft_id: Option<u128>) -> u128 {
    match nft_id {
        Some(t) => t,
        None => 0,
    }
}

/// Each element is greater than the ones before it.
pub open spec fn strictly_increasing(s: Seq<u128>) -> bool {
    forall|i: int, j: int| 0 <= i < j < s.len() ==> s[i] < s[j]
}

/// The data of the tokens `ids` put together in that order, a later
/// token's value replacing an earlier one's under the same name.
pub open spec fn merge_tokens<W>(m: Map<u128, Map<Seq<char>, W>>, ids: Seq<u128>) -> Map<Seq<char>, W>
    decreases ids.len(),
{
    if ids.len() == 0 {
        Map::empty()
    } else {
        merge_tokens(m, ids.drop_last()).union_prefer_right(m[ids.last()])
    }
}

/// The data of `t` in `m`, or nothing.
pub open spec fn token_data<W>(m: Map<u128, Map<Seq<char>, W>>, t: u128) -> Map<Seq<char>, W> {
    if m.contains_key(t) {
        m[t]
    } else {
        Map::empty()
    }
}

/// The named values of one token.
pub struct MetadataData<V: DeepCopy> {
    pub data: KeyedMap<String, V>,
}

impl<V: DeepCopy> View for MetadataData<V> {
    type V = Map<Seq<char>, V::V>;

    open spec fn view(&self) -> Map<Seq<char>, V::V> {
        self.data@
    }
}

impl<V: DeepCopy> DeepCopy for MetadataData<V> {
    fn deep_copy(&self) -> (c: Self) {
        MetadataData { data: self.data.deep_copy() }
    }
}

/// Named values of each token.
pub struct Metadata<V: DeepCopy> {
    data: KeyedMap<u128, MetadataData<V>>,
}

impl<V: DeepCopy> View for Metadata<V> {
    type V = Map<u128, Map<Seq<char>, V::V>>;

    closed spec fn view(&self) -> Map<u128, Map<Seq<char>, V::V>> {
        self.data@
    }
}

fn to_key(nft_id: Option<u128>) -> (t: u128)
    ensures
        t == token_key(nft_id),
{
    match nft_id {
        Some(t) => t,
        None => 0,
    }
}

impl<V: DeepCopy> DeepCopy for Metadata<V> {
    fn deep_copy(&self) -> (c: Self) {
        Metadata { data: self.data.deep_copy() }
    }
}

impl<V: DeepCopy> Metadata<V> {
    /// An empty store.
    pub fn new() -> (s: Self)
        ensures
            s@ == Map::<u128, Map<Seq<char>, V::V>>::empty(),
    {
        Metadata { data: KeyedMap::new() }
    }

    /// A store holding `metadata` as the collection's data (token 0); an
    /// empty `metadata` gives an empty store.
    pub fn from(metadata: &KeyedMap<String, V>) -> (s: Self)
        ensures
            s@ == (if metadata@.len() == 0 {
                Map::<u128, Map<Seq<char>, V::V>>::empty()
            } else {
                map![0u128 => metadata@]
            }),
    {
        let mut data: KeyedMap<u128, MetadataData<V>> = KeyedMap::new();
        if !metadata.is_empty() {
            data.insert(0, MetadataData { data: metadata.deep_copy() });
            assert(data@ =~= map![0u128 => metadata@]);
        }
        Metadata { data }
    }

    /// Sets the value named `data_id` of the token.
    pub fn insert_data(&mut self, nft_id: Option<u128>, data_id: String, data: V)
        ensures
            final(self)@ == old(self)@.insert(
                token_key(nft_id),
                token_data(old(self)@, token_key(nft_id)).insert(data_id@, data@),
            ),
    {
        let t = to_key(nft_id);
        let mut entries = match self.data.remove(&t) {
            Some(m) => m.data,
            None => KeyedMap::new(),
        };
        entries.insert(data_id, data);
        self.data.insert(t, MetadataData { data: entries });
        assert(self@ =~= old(self)@.insert(
            token_key(nft_id),
            token_data(old(self)@, token_key(nft_id)).insert(data_id@, data@),
        ));
    }

    /// Sets every value of `md` for the token, one after the other; with no
    /// values the store stays as it was.
    pub fn add_all(&mut self, token_id: u128, md: &KeyedMap<String, V>)
        ensures
            final(self)@ == (if md@.len() == 0 {
                old(self)@
            } else {
                old(self)@.insert(token_id, token_data(old(self)@, token_id).union_prefer_right(md@))
            }),
    {
        if md.is_empty() {
            return;
        }
        let mut entries = match self.data.remove(&token_id) {
            Some(m) => m.data,
            None => KeyedMap::new(),
        };
        entries.merge_from(md);
        self.data.insert(token_id, MetadataData { data: entries });
        assert(self@ =~= old(self)@.insert(token_id, token_data(old(self)@, token_id).union_prefer_right(md@)));
    }

    /// The value named `data_id` of the token, or "Data not found" when the
    /// token has no data or no such value.
    pub fn get_data(&self, nft_id: Option<u128>, data_id: &String) -> (r: Result<V, String>)
        ensures
            match r {
                Ok(v) => self@.contains_key(token_key(nft_id)) && self@[token_key(
                    nft_id,
                )].contains_key(data_id@) && v@ == self@[token_key(nft_id)][data_id@],
                Err(e) => e@ == "Data not found"@ && !(self@.contains_key(token_key(nft_id))
                    && self@[token_key(nft_id)].contains_key(data_id@)),
            },
    {
        let t = to_key(nft_id);
        match self.data.get(&t) {
            None => Err("Data not found".to_string()),
            Some(m) => match m.data.get(data_id) {
                Some(v) => Ok(v.deep_copy()),
                None => Err("Data not found".to_string()),
            },
        }
    }

    /// The ids of the tokens with data, in increasing order.
    fn ascending_token_ids(&self) -> (ids: Vec<u128>)
        ensures
            strictly_increasing(ids@),
            ids@.to_set() == self@.dom(),
    {
        proof {
            use_type_invariant(&self.data);
            self.data.lemma_positions();
        }
        let n = self.data.len();
        let mut out: Vec<u128> = Vec::new();
        let mut i: usize = 0;
        while i < n
            invariant
                n == self.data.spec_len(),
                self.data.inv(),
                i <= n,
                strictly_increasing(out@),
                forall|y: u128| #[trigger] out@.contains(y) <==> exists|p: int|
                    0 <= p < i && self.data.spec_key_at(p) == y,
            decreases n - i,
        {
            let x = *self.data.key_at(i);
            proof {
                self.data.lemma_positions();
                assert forall|p: int| 0 <= p < i implies self.data.spec_key_at(p) != x by {
                    assert(self.data.spec_key_at(i as int) == x);
                }
            }
            let mut pos: usize = 0;
            while pos < out.len() && out[pos] < x
                invariant
                    pos <= out@.len(),
                    forall|j: int| 0 <= j < pos ==> out@[j] < x,
                decreases out@.len() - pos,
            {
                pos += 1;
            }
            proof {
                if pos < out@.len() {
                    assert(out@[pos as int] != x) by {
                        assert(out@.contains(out@[pos as int]));
                    }
                }
            }
            let ghost before = out@;
            out.insert(pos, x);
            proof {
                assert(out@ == before.insert(pos as int, x));
                assert forall|a: int, b: int| 0 <= a < b < out@.len() implies out@[a] < out@[b] by {
                    if a < pos && b > pos {
                        assert(before[a] < x);
                    } else if a == pos && b > pos {
                        assert(before[pos as int] >= x && before[pos as int] != x);
                        assert(before[pos as int] <= before[b - 1]);
                    }
                }
                assert forall|y: u128| #[trigger] out@.contains(y) <==> exists|p: int|
                    0 <= p < i + 1 && self.data.spec_key_at(p) == y by {
                    if out@.contains(y) {
                        let k = choose|k: int| 0 <= k < out@.len() && out@[k] == y;
                        if k < pos {
                            assert(before.contains(before[k]));
                        } else if k > pos {
                            assert(before.contains(before[k - 1]));
                        } else {
                            assert(self.data.spec_key_at(i as int) == y);
                        }
                    }
                    if exists|p: int| 0 <= p < i + 1 && self.data.spec_key_at(p) == y {
                        let p = choose|p: int| 0 <= p < i + 1 && self.data.spec_key_at(p) == y;
                        if p == i {
                            assert(out@[pos as int] == y);
                        } else {
                            assert(before.contains(y));
                            let k = choose|k: int| 0 <= k < before.len() && before[k] == y;
                            if k < pos {
                                assert(out@[k] == y);
                            } else {
                                assert(out@[k + 1] == y);
                            }
                        }
                    }
                }
            }
            i += 1;
        }
        proof {
            self.data.lemma_positions();
            assert forall|y: u128| #[trigger] out@.to_set().contains(y) <==> self@.dom().contains(y) by {
                if self@.contains_key(y) {
                    let p = self.data.spec_index_of(y);
                    assert(self.data.spec_key_at(p) == y);
                }
            }
            assert(out@.to_set() =~= self@.dom());
        }
        out
    }

    /// The ids of the tokens with data, in increasing order.
    pub fn get_all_nfts_ids(&self) -> (r: Result<Vec<u128>, String>)
        ensures
            r matches Ok(ids) && strictly_increasing(ids@) && ids@.to_set() == self@.dom(),
    {
        Ok(self.ascending_token_ids())
    }

    /// The data of the token, or "Data not found" when it has none; without
    /// a token, the data of every token put together in increasing order of
    /// ids, so that a greater id's value wins under a shared name.
    pub fn get_all_data(&self, nft_id: Option<u128>) -> (r: Result<KeyedMap<String, V>, String>)
        ensures
            match nft_id {
                Some(t) => match r {
                    Ok(m) => self@.contains_key(t) && m@ == self@[t],
                    Err(e) => !self@.contains_key(t) && e@ == "Data not found"@,
                },
                None => r matches Ok(m) && exists|ids: Seq<u128>|
                    strictly_increasing(ids) && ids.to_set() == self@.dom() && m@ == merge_tokens(
                        self@,
                        ids,
                    ),
            },
    {
        match nft_id {
            Some(t) => match self.data.get(&t) {
                Some(m) => Ok(m.data.deep_copy()),
                None => Err("Data not found".to_string()),
            },
            None => {
                let ids = self.ascending_token_ids();
                let mut all: KeyedMap<String, V> = KeyedMap::new();
                let mut j: usize = 0;
                assert(merge_tokens(self@, ids@.take(0)) =~= Map::<Seq<char>, V::V>::empty());
                while j < ids.len()
                    invariant
                        j <= ids@.len(),
                        ids@.to_set() == self@.dom(),
                        all@ == merge_tokens(self@, ids@.take(j as int)),
                    decreases ids@.len() - j,
                {
                    let t = ids[j];
                    assert(ids@.to_set().contains(t)) by {
                        assert(ids@.contains(ids@[j as int]));
                    }
                    match self.data.get(&t) {
                        Some(m) => {
                            all.merge_from(&m.data);
                        },
                        None => {},
                    }
                    assert(ids@.take(j as int + 1).drop_last() =~= ids@.take(j as int));
                    j += 1;
                }
                assert(ids@.take(j as int) =~= ids@);
                Ok(all)
            },
        }
    }

    /// Sets the value named `data_id` of a token that has data, handing back
    /// the value it replaces; "Data not found" for a token without data,
    /// which is left without.
    pub fn update_data(&mut self, nft_id: Option<u128>, data_id: String, data: V) -> (r: Result<
        Option<V>,
        String,
    >)
        ensures
            !old(self)@.contains_key(token_key(nft_id)) ==> (r matches Err(e) && e@ == "Data not found"@
                && final(self)@ == old(self)@),
            old(self)@.contains_key(token_key(nft_id)) ==> {
                let t = token_key(nft_id);
                &&& final(self)@ == old(self)@.insert(t, old(self)@[t].insert(data_id@, data@))
                &&& r matches Ok(prev)
                &&& match prev {
                    Some(v) => old(self)@[t].contains_key(data_id@) && v@ == old(self)@[t][data_id@],
                    None => !old(self)@[t].contains_key(data_id@),
                }
            },
    {
        let t = to_key(nft_id);
        match self.data.remove(&t) {
            None => Err("Data not found".to_string()),
            Some(md) => {
                let mut entries = md.data;
                let prev = match entries.get(&data_id) {
                    Some(v) => Some(v.deep_copy()),
                    None => None,
                };
                entries.insert(data_id, data);
                self.data.insert(t, MetadataData { data: entries });
                assert(self@ =~= old(self)@.insert(t, old(self)@[t].insert(data_id@, data@)));
                Ok(prev)
            },
        }
    }

    /// Removes the value named `data_id` from a copy of the token's data,
    /// which is not stored back: the store stays as it was.
    pub fn delete_data(&mut self, nft_id: Option<u128>, data_id: &String)
        requires
            old(self)@.contains_key(token_key(nft_id)),
        ensures
            final(self)@ == old(self)@,
    {
        let t = to_key(nft_id);
        if let Some(m) = self.data.get(&t) {
            let mut entries = m.data.deep_copy();
            entries.remove(data_id);
        }
    }

    /// Replaces all data of the token by `datas`; with no data the token
    /// has none left.
    pub fn replace_all_data(&mut self, nft_id: Option<u128>, datas: KeyedMap<String, V>)
        ensures
            final(self)@ == (if datas@.len() == 0 {
                old(self)@.remove(token_key(nft_id))
            } else {
                old(self)@.insert(token_key(nft_id), datas@)
            }),
    {
        let t = to_key(nft_id);
        self.data.remove(&t);
        if !datas.is_empty() {
            self.data.insert(t, MetadataData { data: datas });
        }
    }
}

/// Why a token's metadata could not be updated.
#[derive(Debug)]
pub enum UpdateNftMetadataError {
    ConcurrentManagementCall,
    TokenDoesNotExist,
    StorageCanisterError(String),
}

/// Replaces all metadata of an existing token by `metadata`, handing back
/// the token's metadata before and after (empty when it had none), which
/// the caller records in the token's update transaction.
pub fn update_nft_metadata<V: DeepCopy>(
    ledger: &TokenLedger,
    store: &mut Metadata<V>,
    token_id: u128,
    metadata: KeyedMap<String, V>,
) -> (r: Result<(KeyedMap<String, V>, KeyedMap<String, V>), UpdateNftMetadataError>)
    ensures
        !ledger@.contains_key(token_id) ==> (r matches Err(UpdateNftMetadataError::TokenDoesNotExist)
            && final(store)@ == old(store)@),
        ledger@.contains_key(token_id) ==> (r matches Ok((before, after)) && before@ == token_data(
            old(store)@,
            token_id,
        ) && final(store)@ == (if metadata@.len() == 0 {
            old(store)@.remove(token_id)
        } else {
            old(store)@.insert(token_id, metadata@)
        }) && after@ == token_data(final(store)@, token_id)),
{
    if ledger.get_token_by_id(token_id).is_none() {
        return Err(UpdateNftMetadataError::TokenDoesNotExist);
    }
    let before = match store.get_all_data(Some(token_id)) {
        Ok(m) => m,
        Err(_) => KeyedMap::new(),
    };
    store.replace_all_data(Some(token_id), metadata);
    let after = match store.get_all_data(Some(token_id)) {
        Ok(m) => m,
        Err(_) => KeyedMap::new(),
    };
    Ok((before, after))
}

/// What `insert_data` writes, `get_data` reads back for the same token and
/// name, and every other value of every token stays as it was.
pub proof fn lemma_insert_then_get<W>(
    m: Map<u128, Map<Seq<char>, W>>,
    t: u128,
    k: Seq<char>,
    v: W,
    t2: u128,
    k2: Seq<char>,
)
    ensures
        ({
            let after = m.insert(t, token_data(m, t).insert(k, v));
            &&& after.contains_key(t) && after[t].contains_key(k) && after[t][k] == v
            &&& (t2 != t || k2 != k) ==> (token_data(after, t2).contains_key(k2) == token_data(
                m,
                t2,
            ).contains_key(k2) && (token_data(m, t2).contains_key(k2) ==> token_data(after, t2)[k2]
                == token_data(m, t2)[k2]))
        }),
{
}

} // verus!
