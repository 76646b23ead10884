//! The collection's own settings: how they are updated, and the ICRC-7
//! collection metadata they are published as.

use vstd::prelude::*;
use crate::management::check_collection_metadata_keys;
use crate::guards::MAX_CONCURRENT;
use crate::keyed::KeyedSet;
use crate::principal::PrincipalId;
use crate::text::{chars_less, chars_lt, chars_of, lemma_chars_order, seq_starts_with};
use vstd::pervasive::cloned;

verus! {

broadcast use vstd::string::group_string_axioms;

/// The settings of the collection; `V` is the type of custom metadata values.
#[derive(Debug)]
pub struct CollectionSettings<V> {
    pub symbol: String,
    pub name: String,
    pub description: Option<String>,
    pub logo: Option<String>,
    pub supply_cap: Option<u128>,
    pub max_query_batch_size: Option<u128>,
    pub max_update_batch_size: Option<u128>,
    pub max_take_value: Option<u128>,
    pub default_take_value: Option<u128>,
    pub max_memo_size: Option<u128>,
    pub atomic_batch_transfers: Option<bool>,
    pub tx_window: Option<u128>,
    pub permitted_drift: Option<u128>,
    pub max_canister_storage_threshold: Option<u128>,
    pub custom_collection_metadata: Vec<(String, V)>,
}

/// A request to change some of the settings: each field that is given
/// replaces the setting.
pub struct CollectionUpdate<V> {
    pub symbol: Option<String>,
    pub name: Option<String>,
    pub description: Option<String>,
    pub logo: Option<String>,
    pub supply_cap: Option<u128>,
    pub max_query_batch_size: Option<u128>,
    pub max_update_batch_size: Option<u128>,
    pub max_take_value: Option<u128>,
    pub default_take_value: Option<u128>,
    pub max_memo_size: Option<u128>,
    pub atomic_batch_transfers: Option<bool>,
    pub tx_window: Option<u128>,
    pub permitted_drift: Option<u128>,
    pub max_canister_storage_threshold: Option<u128>,
    pub collection_metadata: Option<Vec<(String, V)>>,
}

/// Why the settings could not be updated.
#[derive(Debug)]
pub enum UpdateCollectionMetadataError {
    ConcurrentManagementCall,
    InvalidMetadataKey(String),
}

/// `new` when it is given, `old` otherwise.
pub open spec fn replaced<T>(old: T, new: Option<T>) -> T {
    match new {
        Some(n) => n,
        None => old,
    }
}

/// `old` with a given value replacing it.
pub open spec fn replaced_opt<T>(old: Option<T>, new: Option<T>) -> Option<T> {
    match new {
        Some(n) => Some(n),
        None => old,
    }
}

/// Every setting given in `u` replaces the one in `s`; custom metadata aside.
pub open spec fn plain_settings_updated<V>(s: CollectionSettings<V>, u: CollectionUpdate<V>, f: CollectionSettings<V>) -> bool {
    &&& f.symbol@ == replaced(s.symbol, u.symbol)@
    &&& f.name@ == replaced(s.name, u.name)@
    &&& f.description == replaced_opt(s.description, u.description)
    &&& f.logo == replaced_opt(s.logo, u.logo)
    &&& f.supply_cap == replaced_opt(s.supply_cap, u.supply_cap)
    &&& f.max_query_batch_size == replaced_opt(s.max_query_batch_size, u.max_query_batch_size)
    &&& f.max_update_batch_size == replaced_opt(s.max_update_batch_size, u.max_update_batch_size)
    &&& f.max_take_value == replaced_opt(s.max_take_value, u.max_take_value)
    &&& f.default_take_value == replaced_opt(s.default_take_value, u.default_take_value)
    &&& f.max_memo_size == replaced_opt(s.max_memo_size, u.max_memo_size)
    &&& f.atomic_batch_transfers == replaced_opt(s.atomic_batch_transfers, u.atomic_batch_transfers)
    &&& f.tx_window == replaced_opt(s.tx_window, u.tx_window)
    &&& f.permitted_drift == replaced_opt(s.permitted_drift, u.permitted_drift)
    &&& f.max_canister_storage_threshold == replaced_opt(
        s.max_canister_storage_threshold,
        u.max_canister_storage_threshold,
    )
}

/// Some key of the custom metadata `m` is protected (starts with `icrc7:`).
pub open spec fn has_protected_key<V>(m: Seq<(String, V)>) -> bool {
    exists|i: int| 0 <= i < m.len() && seq_starts_with(#[trigger] m[i].0@, "icrc7:"@)
}

/// Replaces `slot` by the value given, if any.
fn set_given<T>(slot: &mut T, v: Option<T>)
    ensures
        *final(slot) == replaced(*old(slot), v),
{
    if let Some(x) = v {
        *slot = x;
    }
}

/// Sets `slot` to the value given, if any.
fn set_given_opt<T>(slot: &mut Option<T>, v: Option<T>)
    ensures
        *final(slot) == replaced_opt(*old(slot), v),
{
    if let Some(x) = v {
        *slot = Some(x);
    }
}

/// `msg` names the first protected key of the custom metadata `m`.
pub open spec fn first_protected_message<V>(m: Seq<(String, V)>, msg: Seq<char>) -> bool {
    exists|i: int|
        0 <= i < m.len() && seq_starts_with(#[trigger] m[i].0@, "icrc7:"@) && (forall|j: int|
            0 <= j < i ==> !seq_starts_with(#[trigger] m[j].0@, "icrc7:"@)) && msg
            == crate::management::protected_key_message(m[i].0@)
}

/// Applies an update of the collection's settings, one management call at
/// a time (`guards` holds the calls running): every setting given replaces
/// the current one; custom metadata, when given, replaces the current
/// custom metadata unless one of its keys is protected, which refuses it
/// (the other settings stay updated).
pub fn update_collection_metadata<V>(
    guards: &KeyedSet<PrincipalId>,
    settings: &mut CollectionSettings<V>,
    req: CollectionUpdate<V>,
) -> (r: Result<(), UpdateCollectionMetadataError>)
    ensures
        guards@.len() >= MAX_CONCURRENT ==> (r matches Err(UpdateCollectionMetadataError::ConcurrentManagementCall))
            && *final(settings) == *old(settings),
        guards@.len() < MAX_CONCURRENT ==> plain_settings_updated(*old(settings), req, *final(settings)),
        guards@.len() < MAX_CONCURRENT ==> 
        match req.collection_metadata {
            None => r is Ok && final(settings).custom_collection_metadata
                == old(settings).custom_collection_metadata,
            Some(m) => if has_protected_key(m@) {
                r matches Err(UpdateCollectionMetadataError::InvalidMetadataKey(msg))
                    && first_protected_message(m@, msg@)
                    && final(settings).custom_collection_metadata
                    == old(settings).custom_collection_metadata
            } else {
                r is Ok && final(settings).custom_collection_metadata == m
            },
        },
{
    if guards.len() >= MAX_CONCURRENT {
        return Err(UpdateCollectionMetadataError::ConcurrentManagementCall);
    }
    let CollectionUpdate {
        symbol,
        name,
        description,
        logo,
        supply_cap,
        max_query_batch_size,
        max_update_batch_size,
        max_take_value,
        default_take_value,
        max_memo_size,
        atomic_batch_transfers,
        tx_window,
        permitted_drift,
        max_canister_storage_threshold,
        collection_metadata,
    } = req;
    set_given_opt(&mut settings.description, description);
    set_given(&mut settings.symbol, symbol);
    set_given(&mut settings.name, name);
    set_given_opt(&mut settings.logo, logo);
    set_given_opt(&mut settings.supply_cap, supply_cap);
    set_given_opt(&mut settings.max_query_batch_size, max_query_batch_size);
    set_given_opt(&mut settings.max_update_batch_size, max_update_batch_size);
    set_given_opt(&mut settings.max_take_value, max_take_value);
    set_given_opt(&mut settings.default_take_value, default_take_value);
    set_given_opt(&mut settings.max_memo_size, max_memo_size);
    set_given_opt(&mut settings.atomic_batch_transfers, atomic_batch_transfers);
    set_given_opt(&mut settings.tx_window, tx_window);
    set_given_opt(&mut settings.permitted_drift, permitted_drift);
    set_given_opt(&mut settings.max_canister_storage_threshold, max_canister_storage_threshold);
    if let Some(custom) = collection_metadata {
        let mut keys: Vec<String> = Vec::new();
        let mut i: usize = 0;
        while i < custom.len()
            invariant
                i <= custom@.len(),
                keys@.len() == i,
                forall|j: int| 0 <= j < i ==> (#[trigger] keys@[j])@ == custom@[j].0@,
            decreases custom@.len() - i,
        {
            keys.push(custom[i].0.clone());
            i += 1;
        }
        match check_collection_metadata_keys(&keys) {
            Err(m) => {
                proof {
                    let i = choose|i: int|
                        0 <= i < keys@.len() && seq_starts_with(keys@[i]@, "icrc7:"@) && (forall|
                            j: int,
                        |
                            0 <= j < i ==> !seq_starts_with(#[trigger] keys@[j]@, "icrc7:"@)) && m@
                            == crate::management::protected_key_message(keys@[i]@);
                    assert(seq_starts_with(custom@[i].0@, "icrc7:"@));
                    assert forall|j: int| 0 <= j < i implies !seq_starts_with(
                        #[trigger] custom@[j].0@,
                        "icrc7:"@,
                    ) by {
                        assert(keys@[j]@ == custom@[j].0@);
                    }
                    assert(first_protected_message(custom@, m@));
                }
                return Err(UpdateCollectionMetadataError::InvalidMetadataKey(m));
            },
            Ok(()) => {
                proof {
                    assert forall|i: int| 0 <= i < custom@.len() implies !seq_starts_with(
                        #[trigger] custom@[i].0@,
                        "icrc7:"@,
                    ) by {
                        assert(keys@[i]@ == custom@[i].0@);
                    }
                }
                settings.custom_collection_metadata = custom;
            },
        }
    }
    Ok(())
}

/// A value of the collection metadata.
#[derive(Debug, PartialEq)]
pub enum MetadataValue<V> {
    Nat(u128),
    Text(String),
    Custom(V),
}

/// What a metadata value holds, a text taken by its characters.
pub enum MetadataView<V> {
    Nat(u128),
    Text(Seq<char>),
    Custom(V),
}

pub open spec fn value_view<V>(v: MetadataValue<V>) -> MetadataView<V> {
    match v {
        MetadataValue::Nat(n) => MetadataView::Nat(n),
        MetadataValue::Text(t) => MetadataView::Text(t@),
        MetadataValue::Custom(c) => MetadataView::Custom(c),
    }
}

/// The metadata entries, keys and values taken by their views.
pub open spec fn entries_view<V>(r: Seq<(String, MetadataValue<V>)>) -> Seq<(Seq<char>, MetadataView<V>)> {
    r.map_values(|e: (String, MetadataValue<V>)| (e.0@, value_view(e.1)))
}

/// One entry `nat` under key `k` when the setting is given.
pub open spec fn opt_nat<V>(k: Seq<char>, v: Option<u128>) -> Seq<(Seq<char>, MetadataView<V>)> {
    match v {
        Some(n) => seq![(k, MetadataView::Nat(n))],
        None => Seq::empty(),
    }
}

/// One text entry under key `k` when the setting is given.
pub open spec fn opt_text<V>(k: Seq<char>, v: Option<String>) -> Seq<(Seq<char>, MetadataView<V>)> {
    match v {
        Some(t) => seq![(k, MetadataView::Text(t@))],
        None => Seq::empty(),
    }
}

/// How a flag is written in the metadata.
pub open spec fn bool_text(b: bool) -> Seq<char> {
    if b {
        "true"@
    } else {
        "false"@
    }
}

/// The ICRC-7 entries of the collection metadata that are set, in the
/// standard order.
pub open spec fn standard_items<V>(s: CollectionSettings<V>, total_supply: u128) -> Seq<
    (Seq<char>, MetadataView<V>),
> {
    seq![("icrc7:symbol"@, MetadataView::<V>::Text(s.symbol@))] + seq![
        ("icrc7:name"@, MetadataView::<V>::Text(s.name@)),
    ] + seq![("icrc7:total_supply"@, MetadataView::<V>::Nat(total_supply))] + opt_text(
        "icrc7:description"@,
        s.description,
    ) + opt_text("icrc7:logo"@, s.logo) + opt_nat("icrc7:supply_cap"@, s.supply_cap) + opt_nat(
        "icrc7:max_query_batch_size"@,
        s.max_query_batch_size,
    ) + opt_nat("icrc7:max_update_batch_size"@, s.max_update_batch_size) + opt_nat(
        "icrc7:default_take_value"@,
        s.default_take_value,
    ) + opt_nat("icrc7:max_take_value"@, s.max_take_value) + opt_nat(
        "icrc7:max_memo_size"@,
        s.max_memo_size,
    ) + match s.atomic_batch_transfers {
        Some(b) => seq![("icrc7:atomic_batch_transfers"@, MetadataView::<V>::Text(bool_text(b)))],
        None => Seq::empty(),
    } + opt_nat("icrc7:tx_window"@, s.tx_window) + opt_nat("icrc7:permitted_drift"@, s.permitted_drift)
}

/// The custom entries, in the order the settings hold them.
pub open spec fn custom_items<V>(s: CollectionSettings<V>) -> Seq<(Seq<char>, MetadataView<V>)> {
    s.custom_collection_metadata@.map_values(|x: (String, V)| (x.0@, MetadataView::Custom(x.1)))
}

/// All metadata entries before sorting: the standard ones, then the custom ones.
pub open spec fn metadata_items<V>(s: CollectionSettings<V>, total_supply: u128) -> Seq<
    (Seq<char>, MetadataView<V>),
> {
    standard_items(s, total_supply) + custom_items(s)
}

/// `got` is the entry `want`, a custom value as a clone of it.
pub open spec fn shows_item<V: Clone>(
    want: (Seq<char>, MetadataView<V>),
    got: (Seq<char>, MetadataView<V>),
) -> bool {
    &&& want.0 == got.0
    &&& match (want.1, got.1) {
        (MetadataView::Custom(a), MetadataView::Custom(b)) => cloned(a, b),
        _ => want.1 == got.1,
    }
}

/// `p` is a permutation of the positions of a sequence of length `n`.
pub open spec fn is_permutation(p: Seq<int>, n: nat) -> bool {
    &&& p.len() == n
    &&& forall|i: int| 0 <= i < n ==> 0 <= #[trigger] p[i] < n
    &&& forall|i: int, j: int| 0 <= i < j < n ==> #[trigger] p[i] != #[trigger] p[j]
}

/// `r` holds the entries `items`, sorted by key; entries with equal keys
/// keep their order (a stable sort).
pub open spec fn stably_sorted_from<V: Clone>(
    r: Seq<(Seq<char>, MetadataView<V>)>,
    items: Seq<(Seq<char>, MetadataView<V>)>,
) -> bool {
    exists|p: Seq<int>|
        {
            &&& is_permutation(p, items.len())
            &&& r.len() == items.len()
            &&& forall|i: int| 0 <= i < r.len() ==> shows_item(items[p[i]], #[trigger] r[i])
            &&& forall|i: int, j: int|
                0 <= i < j < r.len() ==> !chars_lt(#[trigger] r[j].0, #[trigger] r[i].0)
            &&& forall|i: int, j: int|
                0 <= i < j < r.len() && #[trigger] r[i].0 == #[trigger] r[j].0 ==> p[i] < p[j]
        }
}

/// Puts `(key, value)` into the listing `out` after every entry whose key
/// is not greater.
fn insert_entry<V: Clone>(
    out: &mut Vec<(String, MetadataValue<V>)>,
    key: String,
    value: MetadataValue<V>,
    Ghost(items): Ghost<Seq<(Seq<char>, MetadataView<V>)>>,
    Ghost(it): Ghost<(Seq<char>, MetadataView<V>)>,
)
    requires
        stably_sorted_from(entries_view(old(out)@), items),
        shows_item(it, (key@, value_view(value))),
    ensures
        stably_sorted_from(entries_view(final(out)@), items.push(it)),
{
    let ghost rv = entries_view(out@);
    let ghost p = choose|p: Seq<int>|
        {
            &&& is_permutation(p, items.len())
            &&& rv.len() == items.len()
            &&& forall|i: int| 0 <= i < rv.len() ==> shows_item(items[p[i]], #[trigger] rv[i])
            &&& forall|i: int, j: int|
                0 <= i < j < rv.len() ==> !chars_lt(#[trigger] rv[j].0, #[trigger] rv[i].0)
            &&& forall|i: int, j: int|
                0 <= i < j < rv.len() && #[trigger] rv[i].0 == #[trigger] rv[j].0 ==> p[i] < p[j]
        };
    let kc = chars_of(key.as_str());
    let mut pos: usize = 0;
    while pos < out.len()
        invariant
            pos <= out@.len(),
            rv == entries_view(out@),
            kc@ == key@,
            forall|j: int| 0 <= j < pos ==> !chars_lt(key@, #[trigger] rv[j].0),
        ensures
            pos <= out@.len(),
            forall|j: int| 0 <= j < pos ==> !chars_lt(key@, #[trigger] rv[j].0),
            pos < out@.len() ==> chars_lt(key@, rv[pos as int].0),
        decreases out@.len() - pos,
    {
        let pc = chars_of(out[pos].0.as_str());
        assert(rv[pos as int].0 == out@[pos as int].0@);
        if chars_less(&kc, &pc) {
            break;
        }
        pos += 1;
    }
    let ghost kv = key@;
    let ghost vv = value_view(value);
    proof {
        if pos < rv.len() {
            assert forall|j: int| pos <= j < rv.len() implies chars_lt(kv, #[trigger] rv[j].0) by {
                if j > pos {
                    lemma_chars_order(kv, rv[pos as int].0, rv[j].0);
                    lemma_chars_order(rv[pos as int].0, rv[j].0, rv[j].0);
                }
            }
        }
    }
    out.insert(pos, (key, value));
    proof {
        let n = items.len() as int;
        let t = entries_view(out@);
        let items2 = items.push(it);
        assert(t =~= rv.insert(pos as int, (kv, vv)));
        let p2 = p.insert(pos as int, n);
        assert(is_permutation(p2, items2.len()));
        assert forall|i: int| 0 <= i < t.len() implies shows_item(items2[p2[i]], #[trigger] t[i]) by {
            if i < pos {
                assert(t[i] == rv[i]);
                assert(p2[i] == p[i]);
            } else if i > pos {
                assert(t[i] == rv[i - 1]);
                assert(p2[i] == p[i - 1]);
            }
        }
        assert forall|i: int, j: int| 0 <= i < j < t.len() implies !chars_lt(
            #[trigger] t[j].0,
            #[trigger] t[i].0,
        ) by {
            lemma_chars_order(kv, kv, kv);
            if i < pos && j == pos {
            } else if i == pos && j > pos {
                lemma_chars_order(kv, t[j].0, kv);
            } else if i < pos && j > pos {
                lemma_chars_order(rv[i].0, kv, rv[j - 1].0);
                lemma_chars_order(kv, rv[j - 1].0, rv[i].0);
                lemma_chars_order(rv[j - 1].0, rv[i].0, kv);
            }
        }
        assert forall|i: int, j: int|
            0 <= i < j < t.len() && #[trigger] t[i].0 == #[trigger] t[j].0 implies p2[i] < p2[j] by {
            lemma_chars_order(kv, kv, kv);
            if i < pos && j > pos {
                assert(t[i] == rv[i]);
                assert(t[j] == rv[j - 1]);
            } else if i > pos {
                assert(t[i] == rv[i - 1]);
                assert(t[j] == rv[j - 1]);
            } else if j < pos {
            }
        }
        assert(stably_sorted_from(t, items2));
    }
}

/// Adds the entry `nat` under `key` when the setting is given.
fn insert_opt_nat<V: Clone>(
    out: &mut Vec<(String, MetadataValue<V>)>,
    key: &str,
    v: Option<u128>,
    Ghost(items): Ghost<Seq<(Seq<char>, MetadataView<V>)>>,
)
    requires
        stably_sorted_from(entries_view(old(out)@), items),
    ensures
        stably_sorted_from(entries_view(final(out)@), items + opt_nat(key@, v)),
{
    match v {
        Some(n) => {
            insert_entry(out, key.to_string(), MetadataValue::Nat(n), Ghost(items), Ghost((key@, MetadataView::Nat(n))));
            assert(items.push((key@, MetadataView::<V>::Nat(n))) =~= items + opt_nat(key@, v));
        },
        None => {
            assert(items + opt_nat::<V>(key@, v) =~= items);
        },
    }
}

/// Adds the text entry under `key` when the setting is given.
fn insert_opt_text<V: Clone>(
    out: &mut Vec<(String, MetadataValue<V>)>,
    key: &str,
    v: &Option<String>,
    Ghost(items): Ghost<Seq<(Seq<char>, MetadataView<V>)>>,
)
    requires
        stably_sorted_from(entries_view(old(out)@), items),
    ensures
        stably_sorted_from(entries_view(final(out)@), items + opt_text(key@, *v)),
{
    match v {
        Some(t) => {
            insert_entry(out, key.to_string(), MetadataValue::Text(t.clone()), Ghost(items), Ghost((key@, MetadataView::Text(t@))));
            assert(items.push((key@, MetadataView::<V>::Text(t@))) =~= items + opt_text(key@, *v));
        },
        None => {
            assert(items + opt_text::<V>(key@, *v) =~= items);
        },
    }
}

impl<V> CollectionSettings<V> {
    /// The collection's symbol.
    pub fn icrc7_symbol(&self) -> (r: String)
        ensures
            r@ == self.symbol@,
    {
        self.symbol.clone()
    }

    /// The collection's name.
    pub fn icrc7_name(&self) -> (r: String)
        ensures
            r@ == self.name@,
    {
        self.name.clone()
    }

    /// The collection's description, if it has one.
    pub fn icrc7_description(&self) -> (r: Option<String>)
        ensures
            r == self.description,
    {
        match &self.description {
            Some(d) => Some(d.clone()),
            None => None,
        }
    }

    /// The collection's logo, if it has one.
    pub fn icrc7_logo(&self) -> (r: Option<String>)
        ensures
            r == self.logo,
    {
        match &self.logo {
            Some(l) => Some(l.clone()),
            None => None,
        }
    }

    /// Whether batches of transfers are atomic, if the collection says.
    pub fn icrc7_atomic_batch_transfers(&self) -> (r: Option<bool>)
        ensures
            r == self.atomic_batch_transfers,
    {
        self.atomic_batch_transfers
    }

    /// The most tokens the collection may hold, if the collection sets it.
    pub fn icrc7_supply_cap(&self) -> (r: Option<u128>)
        ensures
            r == self.supply_cap,
    {
        self.supply_cap
    }

    /// The most items one query may ask for, if the collection sets it.
    pub fn icrc7_max_query_batch_size(&self) -> (r: Option<u128>)
        ensures
            r == self.max_query_batch_size,
    {
        self.max_query_batch_size
    }

    /// The most items one update may carry, if the collection sets it.
    pub fn icrc7_max_update_batch_size(&self) -> (r: Option<u128>)
        ensures
            r == self.max_update_batch_size,
    {
        self.max_update_batch_size
    }

    /// How many ids a page holds when the request does not say, if the collection sets it.
    pub fn icrc7_default_take_value(&self) -> (r: Option<u128>)
        ensures
            r == self.default_take_value,
    {
        self.default_take_value
    }

    /// The most ids a page may hold, if the collection sets it.
    pub fn icrc7_max_take_value(&self) -> (r: Option<u128>)
        ensures
            r == self.max_take_value,
    {
        self.max_take_value
    }

    /// The most bytes a memo may take, if the collection sets it.
    pub fn icrc7_max_memo_size(&self) -> (r: Option<u128>)
        ensures
            r == self.max_memo_size,
    {
        self.max_memo_size
    }

    /// The window, in nanoseconds, in which a transaction is deduplicated, if the collection sets it.
    pub fn icrc7_tx_window(&self) -> (r: Option<u128>)
        ensures
            r == self.tx_window,
    {
        self.tx_window
    }

    /// The drift, in nanoseconds, allowed between a transaction's time and the canister's, if the collection sets it.
    pub fn icrc7_permitted_drift(&self) -> (r: Option<u128>)
        ensures
            r == self.permitted_drift,
    {
        self.permitted_drift
    }
}

impl<V: Clone> CollectionSettings<V> {
    /// The ICRC-7 collection metadata: every standard setting that is set
    /// and every custom entry, sorted by key (stably), each value a copy of
    /// the setting; `total_supply` is the number of tokens in the collection.
    pub fn collection_metadata(&self, total_supply: u128) -> (r: Vec<(String, MetadataValue<V>)>)
        ensures
            stably_sorted_from(entries_view(r@), metadata_items(*self, total_supply)),
    {
        let mut out: Vec<(String, MetadataValue<V>)> = Vec::new();
        let ghost mut items: Seq<(Seq<char>, MetadataView<V>)> = Seq::empty();
        proof {
            let p: Seq<int> = Seq::empty();
            assert(is_permutation(p, 0));
            assert(entries_view(out@) =~= Seq::empty());
        }
        insert_entry(&mut out, "icrc7:symbol".to_string(), MetadataValue::Text(self.symbol.clone()), Ghost(items), Ghost(("icrc7:symbol"@, MetadataView::Text(self.symbol@))));
        proof { items = items.push(("icrc7:symbol"@, MetadataView::Text(self.symbol@))); }
        insert_entry(&mut out, "icrc7:name".to_string(), MetadataValue::Text(self.name.clone()), Ghost(items), Ghost(("icrc7:name"@, MetadataView::Text(self.name@))));
        proof { items = items.push(("icrc7:name"@, MetadataView::Text(self.name@))); }
        insert_entry(&mut out, "icrc7:total_supply".to_string(), MetadataValue::Nat(total_supply), Ghost(items), Ghost(("icrc7:total_supply"@, MetadataView::Nat(total_supply))));
        proof { items = items.push(("icrc7:total_supply"@, MetadataView::Nat(total_supply))); }
        insert_opt_text(&mut out, "icrc7:description", &self.description, Ghost(items));
        proof { items = items + opt_text("icrc7:description"@, self.description); }
        insert_opt_text(&mut out, "icrc7:logo", &self.logo, Ghost(items));
        proof { items = items + opt_text("icrc7:logo"@, self.logo); }
        insert_opt_nat(&mut out, "icrc7:supply_cap", self.supply_cap, Ghost(items));
        proof { items = items + opt_nat("icrc7:supply_cap"@, self.supply_cap); }
        insert_opt_nat(&mut out, "icrc7:max_query_batch_size", self.max_query_batch_size, Ghost(items));
        proof { items = items + opt_nat("icrc7:max_query_batch_size"@, self.max_query_batch_size); }
        insert_opt_nat(&mut out, "icrc7:max_update_batch_size", self.max_update_batch_size, Ghost(items));
        proof { items = items + opt_nat("icrc7:max_update_batch_size"@, self.max_update_batch_size); }
        insert_opt_nat(&mut out, "icrc7:default_take_value", self.default_take_value, Ghost(items));
        proof { items = items + opt_nat("icrc7:default_take_value"@, self.default_take_value); }
        insert_opt_nat(&mut out, "icrc7:max_take_value", self.max_take_value, Ghost(items));
        proof { items = items + opt_nat("icrc7:max_take_value"@, self.max_take_value); }
        insert_opt_nat(&mut out, "icrc7:max_memo_size", self.max_memo_size, Ghost(items));
        proof { items = items + opt_nat("icrc7:max_memo_size"@, self.max_memo_size); }
        match self.atomic_batch_transfers {
            Some(b) => {
                let t = if b {
                    "true".to_string()
                } else {
                    "false".to_string()
                };
                insert_entry(&mut out, "icrc7:atomic_batch_transfers".to_string(), MetadataValue::Text(t), Ghost(items), Ghost(("icrc7:atomic_batch_transfers"@, MetadataView::Text(bool_text(b)))));
                proof { items = items.push(("icrc7:atomic_batch_transfers"@, MetadataView::Text(bool_text(b)))); }
            },
            None => {},
        }
        proof {
            let a = match self.atomic_batch_transfers {
                Some(b) => seq![("icrc7:atomic_batch_transfers"@, MetadataView::<V>::Text(bool_text(b)))],
                None => Seq::empty(),
            };
            assert(items =~= items.take(items.len() - a.len()) + a);
        }
        insert_opt_nat(&mut out, "icrc7:tx_window", self.tx_window, Ghost(items));
        proof { items = items + opt_nat("icrc7:tx_window"@, self.tx_window); }
        insert_opt_nat(&mut out, "icrc7:permitted_drift", self.permitted_drift, Ghost(items));
        proof { items = items + opt_nat("icrc7:permitted_drift"@, self.permitted_drift); }
        assert(items =~= standard_items(*self, total_supply));
        let ghost std = items;
        let custom = &self.custom_collection_metadata;
        let mut j: usize = 0;
        while j < custom.len()
            invariant
                j <= custom@.len(),
                custom == &self.custom_collection_metadata,
                std == standard_items(*self, total_supply),
                items == std + custom_items(*self).take(j as int),
                stably_sorted_from(entries_view(out@), items),
            decreases custom@.len() - j,
        {
            let ghost want = (custom@[j as int].0@, MetadataView::Custom(custom@[j as int].1));
            insert_entry(&mut out, custom[j].0.clone(), MetadataValue::Custom(custom[j].1.clone()), Ghost(items), Ghost(want));
            proof {
                assert(custom_items(*self).take(j as int + 1) =~= custom_items(*self).take(j as int).push(want));
                items = items.push(want);
            }
            j += 1;
        }
        assert(custom_items(*self).take(j as int) =~= custom_items(*self));
        out
    }
}

/// A permutation takes every position.
pub proof fn lemma_permutation_onto(p: Seq<int>, n: nat, k: int)
    requires
        is_permutation(p, n),
        0 <= k < n,
    ensures
        exists|i: int| 0 <= i < n && p[i] == k,
{
    assert(p.no_duplicates()) by {
        assert forall|a: int, b: int| 0 <= a < p.len() && 0 <= b < p.len() && a != b implies p[a] != p[b] by {
            if a < b {
                assert(p[a] != p[b]);
            } else {
                assert(p[b] != p[a]);
            }
        }
    }
    p.unique_seq_to_set();
    vstd::set_lib::lemma_int_range(0, n as int);
    let range = vstd::set_lib::set_int_range(0, n as int);
    assert(p.to_set().subset_of(range)) by {
        assert forall|x: int| p.to_set().contains(x) implies range.contains(x) by {
            let i = choose|i: int| 0 <= i < p.len() && p[i] == x;
            assert(0 <= p[i] < n);
        }
    }
    vstd::set_lib::lemma_len_subset(p.to_set(), range);
    vstd::set_lib::lemma_subset_equality(p.to_set(), range);
    assert(range.contains(k));
    assert(p.to_set().contains(k));
}

/// Every entry of the collection's settings is listed in its metadata: a
/// listing sorted from the entries holds each of them (a custom value as a
/// copy of it).
pub proof fn lemma_metadata_lists_every_entry<V: Clone>(
    r: Seq<(Seq<char>, MetadataView<V>)>,
    items: Seq<(Seq<char>, MetadataView<V>)>,
    k: int,
)
    requires
        stably_sorted_from(r, items),
        0 <= k < items.len(),
    ensures
        exists|i: int| 0 <= i < r.len() && shows_item(items[k], #[trigger] r[i]),
{
    let p = choose|p: Seq<int>|
        {
            &&& is_permutation(p, items.len())
            &&& r.len() == items.len()
            &&& forall|i: int| 0 <= i < r.len() ==> shows_item(items[p[i]], #[trigger] r[i])
            &&& forall|i: int, j: int|
                0 <= i < j < r.len() ==> !chars_lt(#[trigger] r[j].0, #[trigger] r[i].0)
            &&& forall|i: int, j: int|
                0 <= i < j < r.len() && #[trigger] r[i].0 == #[trigger] r[j].0 ==> p[i] < p[j]
        };
    lemma_permutation_onto(p, items.len(), k);
    let i = choose|i: int| 0 <= i < items.len() && p[i] == k;
    assert(shows_item(items[p[i]], r[i]));
}

/// The metadata listing `r` holds the entry `e`.
pub open spec fn lists_entry<V>(r: Seq<(Seq<char>, MetadataView<V>)>, e: (Seq<char>, MetadataView<V>)) -> bool {
    exists|i: int| 0 <= i < r.len() && r[i] == e
}

/// An element of `a + b` is an element of `a` or of `b`.
proof fn lemma_concat_contains<A>(a: Seq<A>, b: Seq<A>, x: A)
    ensures
        (a + b).contains(x) <==> a.contains(x) || b.contains(x),
{
    if (a + b).contains(x) {
        let i = choose|i: int| 0 <= i < (a + b).len() && (a + b)[i] == x;
        if i < a.len() {
            assert(a[i] == x);
        } else {
            assert(b[i - a.len()] == x);
        }
    }
    if a.contains(x) {
        let i = choose|i: int| 0 <= i < a.len() && a[i] == x;
        assert((a + b)[i] == x);
    }
    if b.contains(x) {
        let i = choose|i: int| 0 <= i < b.len() && b[i] == x;
        assert((a + b)[a.len() + i] == x);
    }
}

/// The elements of a sequence of at most one element.
proof fn lemma_single_contains<A>(a: Seq<A>, x: A)
    requires
        a.len() <= 1,
    ensures
        a.contains(x) <==> a.len() == 1 && a[0] == x,
{
    if a.len() == 1 && a[0] == x {
        assert(a[0] == x);
    }
}

/// A plain (non-custom) entry is listed in a sorted listing exactly when it
/// is one of the entries the listing was sorted from.
proof fn lemma_sorted_lists_plain<V: Clone>(
    r: Seq<(Seq<char>, MetadataView<V>)>,
    items: Seq<(Seq<char>, MetadataView<V>)>,
    e: (Seq<char>, MetadataView<V>),
)
    requires
        stably_sorted_from(r, items),
        !(e.1 is Custom),
    ensures
        lists_entry(r, e) <==> items.contains(e),
{
    if items.contains(e) {
        let k = choose|k: int| 0 <= k < items.len() && items[k] == e;
        lemma_metadata_lists_every_entry(r, items, k);
        let i = choose|i: int| 0 <= i < r.len() && shows_item(items[k], #[trigger] r[i]);
        assert(r[i] == e);
    }
    if lists_entry(r, e) {
        let p = choose|p: Seq<int>|
            {
                &&& is_permutation(p, items.len())
                &&& r.len() == items.len()
                &&& forall|i: int| 0 <= i < r.len() ==> shows_item(items[p[i]], #[trigger] r[i])
                &&& forall|i: int, j: int|
                    0 <= i < j < r.len() ==> !chars_lt(#[trigger] r[j].0, #[trigger] r[i].0)
                &&& forall|i: int, j: int|
                    0 <= i < j < r.len() && #[trigger] r[i].0 == #[trigger] r[j].0 ==> p[i] < p[j]
            };
        let i = choose|i: int| 0 <= i < r.len() && r[i] == e;
        assert(shows_item(items[p[i]], r[i]));
        assert(0 <= p[i] < items.len());
        assert(items[p[i]] == e);
    }
}

/// Which plain entries the collection's entries hold, before sorting: the
/// standard entries that are set, each with its own setting.
proof fn lemma_metadata_items_plain<V>(s: CollectionSettings<V>, total_supply: u128, x: (Seq<char>, MetadataView<V>))
    requires
        !(x.1 is Custom),
    ensures
        metadata_items(s, total_supply).contains(x) <==> ((x == ("icrc7:symbol"@, MetadataView::<V>::Text(s.symbol@)))
            || (x == ("icrc7:name"@, MetadataView::<V>::Text(s.name@)))
            || (x == ("icrc7:total_supply"@, MetadataView::<V>::Nat(total_supply)))
            || (s.description matches Some(d) && x == ("icrc7:description"@, MetadataView::<V>::Text(d@)))
            || (s.logo matches Some(d) && x == ("icrc7:logo"@, MetadataView::<V>::Text(d@)))
            || (s.supply_cap matches Some(m) && x == ("icrc7:supply_cap"@, MetadataView::<V>::Nat(m)))
            || (s.max_query_batch_size matches Some(m) && x == ("icrc7:max_query_batch_size"@, MetadataView::<V>::Nat(m)))
            || (s.max_update_batch_size matches Some(m) && x == ("icrc7:max_update_batch_size"@, MetadataView::<V>::Nat(m)))
            || (s.default_take_value matches Some(m) && x == ("icrc7:default_take_value"@, MetadataView::<V>::Nat(m)))
            || (s.max_take_value matches Some(m) && x == ("icrc7:max_take_value"@, MetadataView::<V>::Nat(m)))
            || (s.max_memo_size matches Some(m) && x == ("icrc7:max_memo_size"@, MetadataView::<V>::Nat(m)))
            || (s.atomic_batch_transfers matches Some(b) && x == ("icrc7:atomic_batch_transfers"@, MetadataView::<V>::Text(bool_text(b))))
            || (s.tx_window matches Some(m) && x == ("icrc7:tx_window"@, MetadataView::<V>::Nat(m)))
            || (s.permitted_drift matches Some(m) && x == ("icrc7:permitted_drift"@, MetadataView::<V>::Nat(m)))),
{
    let c0: Seq<(Seq<char>, MetadataView<V>)> = seq![("icrc7:symbol"@, MetadataView::<V>::Text(s.symbol@))];
    let c1: Seq<(Seq<char>, MetadataView<V>)> = seq![("icrc7:name"@, MetadataView::<V>::Text(s.name@))];
    let c2: Seq<(Seq<char>, MetadataView<V>)> = seq![("icrc7:total_supply"@, MetadataView::<V>::Nat(total_supply))];
    let c3: Seq<(Seq<char>, MetadataView<V>)> = opt_text("icrc7:description"@, s.description);
    let c4: Seq<(Seq<char>, MetadataView<V>)> = opt_text("icrc7:logo"@, s.logo);
    let c5: Seq<(Seq<char>, MetadataView<V>)> = opt_nat("icrc7:supply_cap"@, s.supply_cap);
    let c6: Seq<(Seq<char>, MetadataView<V>)> = opt_nat("icrc7:max_query_batch_size"@, s.max_query_batch_size);
    let c7: Seq<(Seq<char>, MetadataView<V>)> = opt_nat("icrc7:max_update_batch_size"@, s.max_update_batch_size);
    let c8: Seq<(Seq<char>, MetadataView<V>)> = opt_nat("icrc7:default_take_value"@, s.default_take_value);
    let c9: Seq<(Seq<char>, MetadataView<V>)> = opt_nat("icrc7:max_take_value"@, s.max_take_value);
    let c10: Seq<(Seq<char>, MetadataView<V>)> = opt_nat("icrc7:max_memo_size"@, s.max_memo_size);
    let c11: Seq<(Seq<char>, MetadataView<V>)> = match s.atomic_batch_transfers {
        Some(b) => seq![("icrc7:atomic_batch_transfers"@, MetadataView::<V>::Text(bool_text(b)))],
        None => Seq::empty(),
    };
    let c12: Seq<(Seq<char>, MetadataView<V>)> = opt_nat("icrc7:tx_window"@, s.tx_window);
    let c13: Seq<(Seq<char>, MetadataView<V>)> = opt_nat("icrc7:permitted_drift"@, s.permitted_drift);
    let std = standard_items(s, total_supply);
    assert(std == c0 + c1 + c2 + c3 + c4 + c5 + c6 + c7 + c8 + c9 + c10 + c11 + c12 + c13);
    let custom = custom_items(s);
    lemma_concat_contains(std, custom, x);
    if custom.contains(x) {
        let i = choose|i: int| 0 <= i < custom.len() && custom[i] == x;
    }
    lemma_concat_contains(c0 + c1 + c2 + c3 + c4 + c5 + c6 + c7 + c8 + c9 + c10 + c11 + c12, c13, x);
    lemma_concat_contains(c0 + c1 + c2 + c3 + c4 + c5 + c6 + c7 + c8 + c9 + c10 + c11, c12, x);
    lemma_concat_contains(c0 + c1 + c2 + c3 + c4 + c5 + c6 + c7 + c8 + c9 + c10, c11, x);
    lemma_concat_contains(c0 + c1 + c2 + c3 + c4 + c5 + c6 + c7 + c8 + c9, c10, x);
    lemma_concat_contains(c0 + c1 + c2 + c3 + c4 + c5 + c6 + c7 + c8, c9, x);
    lemma_concat_contains(c0 + c1 + c2 + c3 + c4 + c5 + c6 + c7, c8, x);
    lemma_concat_contains(c0 + c1 + c2 + c3 + c4 + c5 + c6, c7, x);
    lemma_concat_contains(c0 + c1 + c2 + c3 + c4 + c5, c6, x);
    lemma_concat_contains(c0 + c1 + c2 + c3 + c4, c5, x);
    lemma_concat_contains(c0 + c1 + c2 + c3, c4, x);
    lemma_concat_contains(c0 + c1 + c2, c3, x);
    lemma_concat_contains(c0 + c1, c2, x);
    lemma_concat_contains(c0, c1, x);
    lemma_single_contains(c0, x);
    lemma_single_contains(c1, x);
    lemma_single_contains(c2, x);
    lemma_single_contains(c3, x);
    lemma_single_contains(c4, x);
    lemma_single_contains(c5, x);
    lemma_single_contains(c6, x);
    lemma_single_contains(c7, x);
    lemma_single_contains(c8, x);
    lemma_single_contains(c9, x);
    lemma_single_contains(c10, x);
    lemma_single_contains(c11, x);
    lemma_single_contains(c12, x);
    lemma_single_contains(c13, x);
}

/// The entry under "icrc7:total_supply" in the collection's entries, before
/// sorting, is a natural number exactly when it is the total supply.
proof fn lemma_items_nat_total_supply<V>(s: CollectionSettings<V>, total_supply: u128, n: u128)
    ensures
        metadata_items(s, total_supply).contains(("icrc7:total_supply"@, MetadataView::<V>::Nat(n))) <==> n == total_supply,
{
    reveal_strlit("icrc7:symbol");
    reveal_strlit("icrc7:name");
    reveal_strlit("icrc7:total_supply");
    reveal_strlit("icrc7:description");
    reveal_strlit("icrc7:logo");
    reveal_strlit("icrc7:supply_cap");
    reveal_strlit("icrc7:max_query_batch_size");
    reveal_strlit("icrc7:max_update_batch_size");
    reveal_strlit("icrc7:default_take_value");
    reveal_strlit("icrc7:max_take_value");
    reveal_strlit("icrc7:max_memo_size");
    reveal_strlit("icrc7:atomic_batch_transfers");
    reveal_strlit("icrc7:tx_window");
    reveal_strlit("icrc7:permitted_drift");
    assert("icrc7:total_supply"@ != "icrc7:symbol"@) by {
        assert("icrc7:total_supply"@.len() != "icrc7:symbol"@.len());
    }
    assert("icrc7:total_supply"@ != "icrc7:name"@) by {
        assert("icrc7:total_supply"@.len() != "icrc7:name"@.len());
    }
    assert("icrc7:total_supply"@ != "icrc7:description"@) by {
        assert("icrc7:total_supply"@.len() != "icrc7:description"@.len());
    }
    assert("icrc7:total_supply"@ != "icrc7:logo"@) by {
        assert("icrc7:total_supply"@.len() != "icrc7:logo"@.len());
    }
    assert("icrc7:total_supply"@ != "icrc7:supply_cap"@) by {
        assert("icrc7:total_supply"@.len() != "icrc7:supply_cap"@.len());
    }
    assert("icrc7:total_supply"@ != "icrc7:max_query_batch_size"@) by {
        assert("icrc7:total_supply"@.len() != "icrc7:max_query_batch_size"@.len());
    }
    assert("icrc7:total_supply"@ != "icrc7:max_update_batch_size"@) by {
        assert("icrc7:total_supply"@.len() != "icrc7:max_update_batch_size"@.len());
    }
    assert("icrc7:total_supply"@ != "icrc7:default_take_value"@) by {
        assert("icrc7:total_supply"@.len() != "icrc7:default_take_value"@.len());
    }
    assert("icrc7:total_supply"@ != "icrc7:max_take_value"@) by {
        assert("icrc7:total_supply"@.len() != "icrc7:max_take_value"@.len());
    }
    assert("icrc7:total_supply"@ != "icrc7:max_memo_size"@) by {
        assert("icrc7:total_supply"@.len() != "icrc7:max_memo_size"@.len());
    }
    assert("icrc7:total_supply"@ != "icrc7:atomic_batch_transfers"@) by {
        assert("icrc7:total_supply"@.len() != "icrc7:atomic_batch_transfers"@.len());
    }
    assert("icrc7:total_supply"@ != "icrc7:tx_window"@) by {
        assert("icrc7:total_supply"@.len() != "icrc7:tx_window"@.len());
    }
    assert("icrc7:total_supply"@ != "icrc7:permitted_drift"@) by {
        assert("icrc7:total_supply"@.len() != "icrc7:permitted_drift"@.len());
    }
    lemma_metadata_items_plain(s, total_supply, ("icrc7:total_supply"@, MetadataView::<V>::Nat(n)));
}

/// The entry under "icrc7:supply_cap" in the collection's entries, before
/// sorting, is a natural number exactly when it reports the setting.
proof fn lemma_items_nat_supply_cap<V>(s: CollectionSettings<V>, total_supply: u128, n: u128)
    ensures
        metadata_items(s, total_supply).contains(("icrc7:supply_cap"@, MetadataView::<V>::Nat(n))) <==> s.supply_cap == Some(n),
{
    reveal_strlit("icrc7:symbol");
    reveal_strlit("icrc7:name");
    reveal_strlit("icrc7:total_supply");
    reveal_strlit("icrc7:description");
    reveal_strlit("icrc7:logo");
    reveal_strlit("icrc7:supply_cap");
    reveal_strlit("icrc7:max_query_batch_size");
    reveal_strlit("icrc7:max_update_batch_size");
    reveal_strlit("icrc7:default_take_value");
    reveal_strlit("icrc7:max_take_value");
    reveal_strlit("icrc7:max_memo_size");
    reveal_strlit("icrc7:atomic_batch_transfers");
    reveal_strlit("icrc7:tx_window");
    reveal_strlit("icrc7:permitted_drift");
    assert("icrc7:supply_cap"@ != "icrc7:symbol"@) by {
        assert("icrc7:supply_cap"@.len() != "icrc7:symbol"@.len());
    }
    assert("icrc7:supply_cap"@ != "icrc7:name"@) by {
        assert("icrc7:supply_cap"@.len() != "icrc7:name"@.len());
    }
    assert("icrc7:supply_cap"@ != "icrc7:total_supply"@) by {
        assert("icrc7:supply_cap"@.len() != "icrc7:total_supply"@.len());
    }
    assert("icrc7:supply_cap"@ != "icrc7:description"@) by {
        assert("icrc7:supply_cap"@.len() != "icrc7:description"@.len());
    }
    assert("icrc7:supply_cap"@ != "icrc7:logo"@) by {
        assert("icrc7:supply_cap"@.len() != "icrc7:logo"@.len());
    }
    assert("icrc7:supply_cap"@ != "icrc7:max_query_batch_size"@) by {
        assert("icrc7:supply_cap"@.len() != "icrc7:max_query_batch_size"@.len());
    }
    assert("icrc7:supply_cap"@ != "icrc7:max_update_batch_size"@) by {
        assert("icrc7:supply_cap"@.len() != "icrc7:max_update_batch_size"@.len());
    }
    assert("icrc7:supply_cap"@ != "icrc7:default_take_value"@) by {
        assert("icrc7:supply_cap"@.len() != "icrc7:default_take_value"@.len());
    }
    assert("icrc7:supply_cap"@ != "icrc7:max_take_value"@) by {
        assert("icrc7:supply_cap"@.len() != "icrc7:max_take_value"@.len());
    }
    assert("icrc7:supply_cap"@ != "icrc7:max_memo_size"@) by {
        assert("icrc7:supply_cap"@.len() != "icrc7:max_memo_size"@.len());
    }
    assert("icrc7:supply_cap"@ != "icrc7:atomic_batch_transfers"@) by {
        assert("icrc7:supply_cap"@.len() != "icrc7:atomic_batch_transfers"@.len());
    }
    assert("icrc7:supply_cap"@ != "icrc7:tx_window"@) by {
        assert("icrc7:supply_cap"@.len() != "icrc7:tx_window"@.len());
    }
    assert("icrc7:supply_cap"@ != "icrc7:permitted_drift"@) by {
        assert("icrc7:supply_cap"@.len() != "icrc7:permitted_drift"@.len());
    }
    lemma_metadata_items_plain(s, total_supply, ("icrc7:supply_cap"@, MetadataView::<V>::Nat(n)));
}

/// The entry under "icrc7:max_query_batch_size" in the collection's entries, before
/// sorting, is a natural number exactly when it reports the setting.
proof fn lemma_items_nat_max_query_batch_size<V>(s: CollectionSettings<V>, total_supply: u128, n: u128)
    ensures
        metadata_items(s, total_supply).contains(("icrc7:max_query_batch_size"@, MetadataView::<V>::Nat(n))) <==> s.max_query_batch_size == Some(n),
{
    reveal_strlit("icrc7:symbol");
    reveal_strlit("icrc7:name");
    reveal_strlit("icrc7:total_supply");
    reveal_strlit("icrc7:description");
    reveal_strlit("icrc7:logo");
    reveal_strlit("icrc7:supply_cap");
    reveal_strlit("icrc7:max_query_batch_size");
    reveal_strlit("icrc7:max_update_batch_size");
    reveal_strlit("icrc7:default_take_value");
    reveal_strlit("icrc7:max_take_value");
    reveal_strlit("icrc7:max_memo_size");
    reveal_strlit("icrc7:atomic_batch_transfers");
    reveal_strlit("icrc7:tx_window");
    reveal_strlit("icrc7:permitted_drift");
    assert("icrc7:max_query_batch_size"@ != "icrc7:symbol"@) by {
        assert("icrc7:max_query_batch_size"@.len() != "icrc7:symbol"@.len());
    }
    assert("icrc7:max_query_batch_size"@ != "icrc7:name"@) by {
        assert("icrc7:max_query_batch_size"@.len() != "icrc7:name"@.len());
    }
    assert("icrc7:max_query_batch_size"@ != "icrc7:total_supply"@) by {
        assert("icrc7:max_query_batch_size"@.len() != "icrc7:total_supply"@.len());
    }
    assert("icrc7:max_query_batch_size"@ != "icrc7:description"@) by {
        assert("icrc7:max_query_batch_size"@.len() != "icrc7:description"@.len());
    }
    assert("icrc7:max_query_batch_size"@ != "icrc7:logo"@) by {
        assert("icrc7:max_query_batch_size"@.len() != "icrc7:logo"@.len());
    }
    assert("icrc7:max_query_batch_size"@ != "icrc7:supply_cap"@) by {
        assert("icrc7:max_query_batch_size"@.len() != "icrc7:supply_cap"@.len());
    }
    assert("icrc7:max_query_batch_size"@ != "icrc7:max_update_batch_size"@) by {
        assert("icrc7:max_query_batch_size"@.len() != "icrc7:max_update_batch_size"@.len());
    }
    assert("icrc7:max_query_batch_size"@ != "icrc7:default_take_value"@) by {
        assert("icrc7:max_query_batch_size"@.len() != "icrc7:default_take_value"@.len());
    }
    assert("icrc7:max_query_batch_size"@ != "icrc7:max_take_value"@) by {
        assert("icrc7:max_query_batch_size"@.len() != "icrc7:max_take_value"@.len());
    }
    assert("icrc7:max_query_batch_size"@ != "icrc7:max_memo_size"@) by {
        assert("icrc7:max_query_batch_size"@.len() != "icrc7:max_memo_size"@.len());
    }
    assert("icrc7:max_query_batch_size"@ != "icrc7:atomic_batch_transfers"@) by {
        assert("icrc7:max_query_batch_size"@.len() != "icrc7:atomic_batch_transfers"@.len());
    }
    assert("icrc7:max_query_batch_size"@ != "icrc7:tx_window"@) by {
        assert("icrc7:max_query_batch_size"@.len() != "icrc7:tx_window"@.len());
    }
    assert("icrc7:max_query_batch_size"@ != "icrc7:permitted_drift"@) by {
        assert("icrc7:max_query_batch_size"@.len() != "icrc7:permitted_drift"@.len());
    }
    lemma_metadata_items_plain(s, total_supply, ("icrc7:max_query_batch_size"@, MetadataView::<V>::Nat(n)));
}

/// The entry under "icrc7:max_update_batch_size" in the collection's entries, before
/// sorting, is a natural number exactly when it reports the setting.
proof fn lemma_items_nat_max_update_batch_size<V>(s: CollectionSettings<V>, total_supply: u128, n: u128)
    ensures
        metadata_items(s, total_supply).contains(("icrc7:max_update_batch_size"@, MetadataView::<V>::Nat(n))) <==> s.max_update_batch_size == Some(n),
{
    reveal_strlit("icrc7:symbol");
    reveal_strlit("icrc7:name");
    reveal_strlit("icrc7:total_supply");
    reveal_strlit("icrc7:description");
    reveal_strlit("icrc7:logo");
    reveal_strlit("icrc7:supply_cap");
    reveal_strlit("icrc7:max_query_batch_size");
    reveal_strlit("icrc7:max_update_batch_size");
    reveal_strlit("icrc7:default_take_value");
    reveal_strlit("icrc7:max_take_value");
    reveal_strlit("icrc7:max_memo_size");
    reveal_strlit("icrc7:atomic_batch_transfers");
    reveal_strlit("icrc7:tx_window");
    reveal_strlit("icrc7:permitted_drift");
    assert("icrc7:max_update_batch_size"@ != "icrc7:symbol"@) by {
        assert("icrc7:max_update_batch_size"@.len() != "icrc7:symbol"@.len());
    }
    assert("icrc7:max_update_batch_size"@ != "icrc7:name"@) by {
        assert("icrc7:max_update_batch_size"@.len() != "icrc7:name"@.len());
    }
    assert("icrc7:max_update_batch_size"@ != "icrc7:total_supply"@) by {
        assert("icrc7:max_update_batch_size"@.len() != "icrc7:total_supply"@.len());
    }
    assert("icrc7:max_update_batch_size"@ != "icrc7:description"@) by {
        assert("icrc7:max_update_batch_size"@.len() != "icrc7:description"@.len());
    }
    assert("icrc7:max_update_batch_size"@ != "icrc7:logo"@) by {
        assert("icrc7:max_update_batch_size"@.len() != "icrc7:logo"@.len());
    }
    assert("icrc7:max_update_batch_size"@ != "icrc7:supply_cap"@) by {
        assert("icrc7:max_update_batch_size"@.len() != "icrc7:supply_cap"@.len());
    }
    assert("icrc7:max_update_batch_size"@ != "icrc7:max_query_batch_size"@) by {
        assert("icrc7:max_update_batch_size"@.len() != "icrc7:max_query_batch_size"@.len());
    }
    assert("icrc7:max_update_batch_size"@ != "icrc7:default_take_value"@) by {
        assert("icrc7:max_update_batch_size"@.len() != "icrc7:default_take_value"@.len());
    }
    assert("icrc7:max_update_batch_size"@ != "icrc7:max_take_value"@) by {
        assert("icrc7:max_update_batch_size"@.len() != "icrc7:max_take_value"@.len());
    }
    assert("icrc7:max_update_batch_size"@ != "icrc7:max_memo_size"@) by {
        assert("icrc7:max_update_batch_size"@.len() != "icrc7:max_memo_size"@.len());
    }
    assert("icrc7:max_update_batch_size"@ != "icrc7:atomic_batch_transfers"@) by {
        assert("icrc7:max_update_batch_size"@.len() != "icrc7:atomic_batch_transfers"@.len());
    }
    assert("icrc7:max_update_batch_size"@ != "icrc7:tx_window"@) by {
        assert("icrc7:max_update_batch_size"@.len() != "icrc7:tx_window"@.len());
    }
    assert("icrc7:max_update_batch_size"@ != "icrc7:permitted_drift"@) by {
        assert("icrc7:max_update_batch_size"@.len() != "icrc7:permitted_drift"@.len());
    }
    lemma_metadata_items_plain(s, total_supply, ("icrc7:max_update_batch_size"@, MetadataView::<V>::Nat(n)));
}

/// The entry under "icrc7:default_take_value" in the collection's entries, before
/// sorting, is a natural number exactly when it reports the setting.
proof fn lemma_items_nat_default_take_value<V>(s: CollectionSettings<V>, total_supply: u128, n: u128)
    ensures
        metadata_items(s, total_supply).contains(("icrc7:default_take_value"@, MetadataView::<V>::Nat(n))) <==> s.default_take_value == Some(n),
{
    reveal_strlit("icrc7:symbol");
    reveal_strlit("icrc7:name");
    reveal_strlit("icrc7:total_supply");
    reveal_strlit("icrc7:description");
    reveal_strlit("icrc7:logo");
    reveal_strlit("icrc7:supply_cap");
    reveal_strlit("icrc7:max_query_batch_size");
    reveal_strlit("icrc7:max_update_batch_size");
    reveal_strlit("icrc7:default_take_value");
    reveal_strlit("icrc7:max_take_value");
    reveal_strlit("icrc7:max_memo_size");
    reveal_strlit("icrc7:atomic_batch_transfers");
    reveal_strlit("icrc7:tx_window");
    reveal_strlit("icrc7:permitted_drift");
    assert("icrc7:default_take_value"@ != "icrc7:symbol"@) by {
        assert("icrc7:default_take_value"@.len() != "icrc7:symbol"@.len());
    }
    assert("icrc7:default_take_value"@ != "icrc7:name"@) by {
        assert("icrc7:default_take_value"@.len() != "icrc7:name"@.len());
    }
    assert("icrc7:default_take_value"@ != "icrc7:total_supply"@) by {
        assert("icrc7:default_take_value"@.len() != "icrc7:total_supply"@.len());
    }
    assert("icrc7:default_take_value"@ != "icrc7:description"@) by {
        assert("icrc7:default_take_value"@.len() != "icrc7:description"@.len());
    }
    assert("icrc7:default_take_value"@ != "icrc7:logo"@) by {
        assert("icrc7:default_take_value"@.len() != "icrc7:logo"@.len());
    }
    assert("icrc7:default_take_value"@ != "icrc7:supply_cap"@) by {
        assert("icrc7:default_take_value"@.len() != "icrc7:supply_cap"@.len());
    }
    assert("icrc7:default_take_value"@ != "icrc7:max_query_batch_size"@) by {
        assert("icrc7:default_take_value"@.len() != "icrc7:max_query_batch_size"@.len());
    }
    assert("icrc7:default_take_value"@ != "icrc7:max_update_batch_size"@) by {
        assert("icrc7:default_take_value"@.len() != "icrc7:max_update_batch_size"@.len());
    }
    assert("icrc7:default_take_value"@ != "icrc7:max_take_value"@) by {
        assert("icrc7:default_take_value"@.len() != "icrc7:max_take_value"@.len());
    }
    assert("icrc7:default_take_value"@ != "icrc7:max_memo_size"@) by {
        assert("icrc7:default_take_value"@.len() != "icrc7:max_memo_size"@.len());
    }
    assert("icrc7:default_take_value"@ != "icrc7:atomic_batch_transfers"@) by {
        assert("icrc7:default_take_value"@.len() != "icrc7:atomic_batch_transfers"@.len());
    }
    assert("icrc7:default_take_value"@ != "icrc7:tx_window"@) by {
        assert("icrc7:default_take_value"@.len() != "icrc7:tx_window"@.len());
    }
    assert("icrc7:default_take_value"@ != "icrc7:permitted_drift"@) by {
        assert("icrc7:default_take_value"@.len() != "icrc7:permitted_drift"@.len());
    }
    lemma_metadata_items_plain(s, total_supply, ("icrc7:default_take_value"@, MetadataView::<V>::Nat(n)));
}

/// The entry under "icrc7:max_take_value" in the collection's entries, before
/// sorting, is a natural number exactly when it reports the setting.
proof fn lemma_items_nat_max_take_value<V>(s: CollectionSettings<V>, total_supply: u128, n: u128)
    ensures
        metadata_items(s, total_supply).contains(("icrc7:max_take_value"@, MetadataView::<V>::Nat(n))) <==> s.max_take_value == Some(n),
{
    reveal_strlit("icrc7:symbol");
    reveal_strlit("icrc7:name");
    reveal_strlit("icrc7:total_supply");
    reveal_strlit("icrc7:description");
    reveal_strlit("icrc7:logo");
    reveal_strlit("icrc7:supply_cap");
    reveal_strlit("icrc7:max_query_batch_size");
    reveal_strlit("icrc7:max_update_batch_size");
    reveal_strlit("icrc7:default_take_value");
    reveal_strlit("icrc7:max_take_value");
    reveal_strlit("icrc7:max_memo_size");
    reveal_strlit("icrc7:atomic_batch_transfers");
    reveal_strlit("icrc7:tx_window");
    reveal_strlit("icrc7:permitted_drift");
    assert("icrc7:max_take_value"@ != "icrc7:symbol"@) by {
        assert("icrc7:max_take_value"@.len() != "icrc7:symbol"@.len());
    }
    assert("icrc7:max_take_value"@ != "icrc7:name"@) by {
        assert("icrc7:max_take_value"@.len() != "icrc7:name"@.len());
    }
    assert("icrc7:max_take_value"@ != "icrc7:total_supply"@) by {
        assert("icrc7:max_take_value"@.len() != "icrc7:total_supply"@.len());
    }
    assert("icrc7:max_take_value"@ != "icrc7:description"@) by {
        assert("icrc7:max_take_value"@.len() != "icrc7:description"@.len());
    }
    assert("icrc7:max_take_value"@ != "icrc7:logo"@) by {
        assert("icrc7:max_take_value"@.len() != "icrc7:logo"@.len());
    }
    assert("icrc7:max_take_value"@ != "icrc7:supply_cap"@) by {
        assert("icrc7:max_take_value"@.len() != "icrc7:supply_cap"@.len());
    }
    assert("icrc7:max_take_value"@ != "icrc7:max_query_batch_size"@) by {
        assert("icrc7:max_take_value"@.len() != "icrc7:max_query_batch_size"@.len());
    }
    assert("icrc7:max_take_value"@ != "icrc7:max_update_batch_size"@) by {
        assert("icrc7:max_take_value"@.len() != "icrc7:max_update_batch_size"@.len());
    }
    assert("icrc7:max_take_value"@ != "icrc7:default_take_value"@) by {
        assert("icrc7:max_take_value"@.len() != "icrc7:default_take_value"@.len());
    }
    assert("icrc7:max_take_value"@ != "icrc7:max_memo_size"@) by {
        assert("icrc7:max_take_value"@.len() != "icrc7:max_memo_size"@.len());
    }
    assert("icrc7:max_take_value"@ != "icrc7:atomic_batch_transfers"@) by {
        assert("icrc7:max_take_value"@.len() != "icrc7:atomic_batch_transfers"@.len());
    }
    assert("icrc7:max_take_value"@ != "icrc7:tx_window"@) by {
        assert("icrc7:max_take_value"@.len() != "icrc7:tx_window"@.len());
    }
    assert("icrc7:max_take_value"@ != "icrc7:permitted_drift"@) by {
        assert("icrc7:max_take_value"@.len() != "icrc7:permitted_drift"@.len());
    }
    lemma_metadata_items_plain(s, total_supply, ("icrc7:max_take_value"@, MetadataView::<V>::Nat(n)));
}

/// The entry under "icrc7:max_memo_size" in the collection's entries, before
/// sorting, is a natural number exactly when it reports the setting.
proof fn lemma_items_nat_max_memo_size<V>(s: CollectionSettings<V>, total_supply: u128, n: u128)
    ensures
        metadata_items(s, total_supply).contains(("icrc7:max_memo_size"@, MetadataView::<V>::Nat(n))) <==> s.max_memo_size == Some(n),
{
    reveal_strlit("icrc7:symbol");
    reveal_strlit("icrc7:name");
    reveal_strlit("icrc7:total_supply");
    reveal_strlit("icrc7:description");
    reveal_strlit("icrc7:logo");
    reveal_strlit("icrc7:supply_cap");
    reveal_strlit("icrc7:max_query_batch_size");
    reveal_strlit("icrc7:max_update_batch_size");
    reveal_strlit("icrc7:default_take_value");
    reveal_strlit("icrc7:max_take_value");
    reveal_strlit("icrc7:max_memo_size");
    reveal_strlit("icrc7:atomic_batch_transfers");
    reveal_strlit("icrc7:tx_window");
    reveal_strlit("icrc7:permitted_drift");
    assert("icrc7:max_memo_size"@ != "icrc7:symbol"@) by {
        assert("icrc7:max_memo_size"@.len() != "icrc7:symbol"@.len());
    }
    assert("icrc7:max_memo_size"@ != "icrc7:name"@) by {
        assert("icrc7:max_memo_size"@.len() != "icrc7:name"@.len());
    }
    assert("icrc7:max_memo_size"@ != "icrc7:total_supply"@) by {
        assert("icrc7:max_memo_size"@.len() != "icrc7:total_supply"@.len());
    }
    assert("icrc7:max_memo_size"@ != "icrc7:description"@) by {
        assert("icrc7:max_memo_size"@.len() != "icrc7:description"@.len());
    }
    assert("icrc7:max_memo_size"@ != "icrc7:logo"@) by {
        assert("icrc7:max_memo_size"@.len() != "icrc7:logo"@.len());
    }
    assert("icrc7:max_memo_size"@ != "icrc7:supply_cap"@) by {
        assert("icrc7:max_memo_size"@.len() != "icrc7:supply_cap"@.len());
    }
    assert("icrc7:max_memo_size"@ != "icrc7:max_query_batch_size"@) by {
        assert("icrc7:max_memo_size"@.len() != "icrc7:max_query_batch_size"@.len());
    }
    assert("icrc7:max_memo_size"@ != "icrc7:max_update_batch_size"@) by {
        assert("icrc7:max_memo_size"@.len() != "icrc7:max_update_batch_size"@.len());
    }
    assert("icrc7:max_memo_size"@ != "icrc7:default_take_value"@) by {
        assert("icrc7:max_memo_size"@.len() != "icrc7:default_take_value"@.len());
    }
    assert("icrc7:max_memo_size"@ != "icrc7:max_take_value"@) by {
        assert("icrc7:max_memo_size"@.len() != "icrc7:max_take_value"@.len());
    }
    assert("icrc7:max_memo_size"@ != "icrc7:atomic_batch_transfers"@) by {
        assert("icrc7:max_memo_size"@.len() != "icrc7:atomic_batch_transfers"@.len());
    }
    assert("icrc7:max_memo_size"@ != "icrc7:tx_window"@) by {
        assert("icrc7:max_memo_size"@.len() != "icrc7:tx_window"@.len());
    }
    assert("icrc7:max_memo_size"@ != "icrc7:permitted_drift"@) by {
        assert("icrc7:max_memo_size"@.len() != "icrc7:permitted_drift"@.len());
    }
    lemma_metadata_items_plain(s, total_supply, ("icrc7:max_memo_size"@, MetadataView::<V>::Nat(n)));
}

/// The entry under "icrc7:tx_window" in the collection's entries, before
/// sorting, is a natural number exactly when it reports the setting.
proof fn lemma_items_nat_tx_window<V>(s: CollectionSettings<V>, total_supply: u128, n: u128)
    ensures
        metadata_items(s, total_supply).contains(("icrc7:tx_window"@, MetadataView::<V>::Nat(n))) <==> s.tx_window == Some(n),
{
    reveal_strlit("icrc7:symbol");
    reveal_strlit("icrc7:name");
    reveal_strlit("icrc7:total_supply");
    reveal_strlit("icrc7:description");
    reveal_strlit("icrc7:logo");
    reveal_strlit("icrc7:supply_cap");
    reveal_strlit("icrc7:max_query_batch_size");
    reveal_strlit("icrc7:max_update_batch_size");
    reveal_strlit("icrc7:default_take_value");
    reveal_strlit("icrc7:max_take_value");
    reveal_strlit("icrc7:max_memo_size");
    reveal_strlit("icrc7:atomic_batch_transfers");
    reveal_strlit("icrc7:tx_window");
    reveal_strlit("icrc7:permitted_drift");
    assert("icrc7:tx_window"@ != "icrc7:symbol"@) by {
        assert("icrc7:tx_window"@.len() != "icrc7:symbol"@.len());
    }
    assert("icrc7:tx_window"@ != "icrc7:name"@) by {
        assert("icrc7:tx_window"@.len() != "icrc7:name"@.len());
    }
    assert("icrc7:tx_window"@ != "icrc7:total_supply"@) by {
        assert("icrc7:tx_window"@.len() != "icrc7:total_supply"@.len());
    }
    assert("icrc7:tx_window"@ != "icrc7:description"@) by {
        assert("icrc7:tx_window"@.len() != "icrc7:description"@.len());
    }
    assert("icrc7:tx_window"@ != "icrc7:logo"@) by {
        assert("icrc7:tx_window"@.len() != "icrc7:logo"@.len());
    }
    assert("icrc7:tx_window"@ != "icrc7:supply_cap"@) by {
        assert("icrc7:tx_window"@.len() != "icrc7:supply_cap"@.len());
    }
    assert("icrc7:tx_window"@ != "icrc7:max_query_batch_size"@) by {
        assert("icrc7:tx_window"@.len() != "icrc7:max_query_batch_size"@.len());
    }
    assert("icrc7:tx_window"@ != "icrc7:max_update_batch_size"@) by {
        assert("icrc7:tx_window"@.len() != "icrc7:max_update_batch_size"@.len());
    }
    assert("icrc7:tx_window"@ != "icrc7:default_take_value"@) by {
        assert("icrc7:tx_window"@.len() != "icrc7:default_take_value"@.len());
    }
    assert("icrc7:tx_window"@ != "icrc7:max_take_value"@) by {
        assert("icrc7:tx_window"@.len() != "icrc7:max_take_value"@.len());
    }
    assert("icrc7:tx_window"@ != "icrc7:max_memo_size"@) by {
        assert("icrc7:tx_window"@.len() != "icrc7:max_memo_size"@.len());
    }
    assert("icrc7:tx_window"@ != "icrc7:atomic_batch_transfers"@) by {
        assert("icrc7:tx_window"@.len() != "icrc7:atomic_batch_transfers"@.len());
    }
    assert("icrc7:tx_window"@ != "icrc7:permitted_drift"@) by {
        assert("icrc7:tx_window"@.len() != "icrc7:permitted_drift"@.len());
    }
    lemma_metadata_items_plain(s, total_supply, ("icrc7:tx_window"@, MetadataView::<V>::Nat(n)));
}

/// The entry under "icrc7:permitted_drift" in the collection's entries, before
/// sorting, is a natural number exactly when it reports the setting.
proof fn lemma_items_nat_permitted_drift<V>(s: CollectionSettings<V>, total_supply: u128, n: u128)
    ensures
        metadata_items(s, total_supply).contains(("icrc7:permitted_drift"@, MetadataView::<V>::Nat(n))) <==> s.permitted_drift == Some(n),
{
    reveal_strlit("icrc7:symbol");
    reveal_strlit("icrc7:name");
    reveal_strlit("icrc7:total_supply");
    reveal_strlit("icrc7:description");
    reveal_strlit("icrc7:logo");
    reveal_strlit("icrc7:supply_cap");
    reveal_strlit("icrc7:max_query_batch_size");
    reveal_strlit("icrc7:max_update_batch_size");
    reveal_strlit("icrc7:default_take_value");
    reveal_strlit("icrc7:max_take_value");
    reveal_strlit("icrc7:max_memo_size");
    reveal_strlit("icrc7:atomic_batch_transfers");
    reveal_strlit("icrc7:tx_window");
    reveal_strlit("icrc7:permitted_drift");
    assert("icrc7:permitted_drift"@ != "icrc7:symbol"@) by {
        assert("icrc7:permitted_drift"@.len() != "icrc7:symbol"@.len());
    }
    assert("icrc7:permitted_drift"@ != "icrc7:name"@) by {
        assert("icrc7:permitted_drift"@.len() != "icrc7:name"@.len());
    }
    assert("icrc7:permitted_drift"@ != "icrc7:total_supply"@) by {
        assert("icrc7:permitted_drift"@.len() != "icrc7:total_supply"@.len());
    }
    assert("icrc7:permitted_drift"@ != "icrc7:description"@) by {
        assert("icrc7:permitted_drift"@.len() != "icrc7:description"@.len());
    }
    assert("icrc7:permitted_drift"@ != "icrc7:logo"@) by {
        assert("icrc7:permitted_drift"@.len() != "icrc7:logo"@.len());
    }
    assert("icrc7:permitted_drift"@ != "icrc7:supply_cap"@) by {
        assert("icrc7:permitted_drift"@.len() != "icrc7:supply_cap"@.len());
    }
    assert("icrc7:permitted_drift"@ != "icrc7:max_query_batch_size"@) by {
        assert("icrc7:permitted_drift"@.len() != "icrc7:max_query_batch_size"@.len());
    }
    assert("icrc7:permitted_drift"@ != "icrc7:max_update_batch_size"@) by {
        assert("icrc7:permitted_drift"@.len() != "icrc7:max_update_batch_size"@.len());
    }
    assert("icrc7:permitted_drift"@ != "icrc7:default_take_value"@) by {
        assert("icrc7:permitted_drift"@.len() != "icrc7:default_take_value"@.len());
    }
    assert("icrc7:permitted_drift"@ != "icrc7:max_take_value"@) by {
        assert("icrc7:permitted_drift"@.len() != "icrc7:max_take_value"@.len());
    }
    assert("icrc7:permitted_drift"@ != "icrc7:max_memo_size"@) by {
        assert("icrc7:permitted_drift"@.len() != "icrc7:max_memo_size"@.len());
    }
    assert("icrc7:permitted_drift"@ != "icrc7:atomic_batch_transfers"@) by {
        assert("icrc7:permitted_drift"@.len() != "icrc7:atomic_batch_transfers"@.len());
    }
    assert("icrc7:permitted_drift"@ != "icrc7:tx_window"@) by {
        assert("icrc7:permitted_drift"@.len() != "icrc7:tx_window"@.len());
    }
    lemma_metadata_items_plain(s, total_supply, ("icrc7:permitted_drift"@, MetadataView::<V>::Nat(n)));
}

/// The text under "icrc7:symbol" in the collection's entries, before sorting,
/// is the setting.
proof fn lemma_items_text_symbol<V>(s: CollectionSettings<V>, total_supply: u128, t: Seq<char>)
    ensures
        metadata_items(s, total_supply).contains(("icrc7:symbol"@, MetadataView::<V>::Text(t))) <==> t == s.symbol@,
{
    reveal_strlit("icrc7:symbol");
    reveal_strlit("icrc7:name");
    reveal_strlit("icrc7:total_supply");
    reveal_strlit("icrc7:description");
    reveal_strlit("icrc7:logo");
    reveal_strlit("icrc7:supply_cap");
    reveal_strlit("icrc7:max_query_batch_size");
    reveal_strlit("icrc7:max_update_batch_size");
    reveal_strlit("icrc7:default_take_value");
    reveal_strlit("icrc7:max_take_value");
    reveal_strlit("icrc7:max_memo_size");
    reveal_strlit("icrc7:atomic_batch_transfers");
    reveal_strlit("icrc7:tx_window");
    reveal_strlit("icrc7:permitted_drift");
    assert("icrc7:name"@ != "icrc7:logo"@) by {
        assert("icrc7:name"@[6] != "icrc7:logo"@[6]);
    }
    assert("icrc7:symbol"@ != "icrc7:atomic_batch_transfers"@) by {
        assert("icrc7:symbol"@.len() != "icrc7:atomic_batch_transfers"@.len());
    }
    assert("icrc7:symbol"@ != "icrc7:name"@) by {
        assert("icrc7:symbol"@.len() != "icrc7:name"@.len());
    }
    assert("icrc7:symbol"@ != "icrc7:total_supply"@) by {
        assert("icrc7:symbol"@.len() != "icrc7:total_supply"@.len());
    }
    assert("icrc7:symbol"@ != "icrc7:description"@) by {
        assert("icrc7:symbol"@.len() != "icrc7:description"@.len());
    }
    assert("icrc7:symbol"@ != "icrc7:logo"@) by {
        assert("icrc7:symbol"@.len() != "icrc7:logo"@.len());
    }
    assert("icrc7:symbol"@ != "icrc7:supply_cap"@) by {
        assert("icrc7:symbol"@.len() != "icrc7:supply_cap"@.len());
    }
    assert("icrc7:symbol"@ != "icrc7:max_query_batch_size"@) by {
        assert("icrc7:symbol"@.len() != "icrc7:max_query_batch_size"@.len());
    }
    assert("icrc7:symbol"@ != "icrc7:max_update_batch_size"@) by {
        assert("icrc7:symbol"@.len() != "icrc7:max_update_batch_size"@.len());
    }
    assert("icrc7:symbol"@ != "icrc7:default_take_value"@) by {
        assert("icrc7:symbol"@.len() != "icrc7:default_take_value"@.len());
    }
    assert("icrc7:symbol"@ != "icrc7:max_take_value"@) by {
        assert("icrc7:symbol"@.len() != "icrc7:max_take_value"@.len());
    }
    assert("icrc7:symbol"@ != "icrc7:max_memo_size"@) by {
        assert("icrc7:symbol"@.len() != "icrc7:max_memo_size"@.len());
    }
    assert("icrc7:symbol"@ != "icrc7:atomic_batch_transfers"@) by {
        assert("icrc7:symbol"@.len() != "icrc7:atomic_batch_transfers"@.len());
    }
    assert("icrc7:symbol"@ != "icrc7:tx_window"@) by {
        assert("icrc7:symbol"@.len() != "icrc7:tx_window"@.len());
    }
    assert("icrc7:symbol"@ != "icrc7:permitted_drift"@) by {
        assert("icrc7:symbol"@.len() != "icrc7:permitted_drift"@.len());
    }
    lemma_metadata_items_plain(s, total_supply, ("icrc7:symbol"@, MetadataView::<V>::Text(t)));
}

/// The text under "icrc7:name" in the collection's entries, before sorting,
/// is the setting.
proof fn lemma_items_text_name<V>(s: CollectionSettings<V>, total_supply: u128, t: Seq<char>)
    ensures
        metadata_items(s, total_supply).contains(("icrc7:name"@, MetadataView::<V>::Text(t))) <==> t == s.name@,
{
    reveal_strlit("icrc7:symbol");
    reveal_strlit("icrc7:name");
    reveal_strlit("icrc7:total_supply");
    reveal_strlit("icrc7:description");
    reveal_strlit("icrc7:logo");
    reveal_strlit("icrc7:supply_cap");
    reveal_strlit("icrc7:max_query_batch_size");
    reveal_strlit("icrc7:max_update_batch_size");
    reveal_strlit("icrc7:default_take_value");
    reveal_strlit("icrc7:max_take_value");
    reveal_strlit("icrc7:max_memo_size");
    reveal_strlit("icrc7:atomic_batch_transfers");
    reveal_strlit("icrc7:tx_window");
    reveal_strlit("icrc7:permitted_drift");
    assert("icrc7:name"@ != "icrc7:logo"@) by {
        assert("icrc7:name"@[6] != "icrc7:logo"@[6]);
    }
    assert("icrc7:symbol"@ != "icrc7:atomic_batch_transfers"@) by {
        assert("icrc7:symbol"@.len() != "icrc7:atomic_batch_transfers"@.len());
    }
    assert("icrc7:name"@ != "icrc7:symbol"@) by {
        assert("icrc7:name"@.len() != "icrc7:symbol"@.len());
    }
    assert("icrc7:name"@ != "icrc7:total_supply"@) by {
        assert("icrc7:name"@.len() != "icrc7:total_supply"@.len());
    }
    assert("icrc7:name"@ != "icrc7:description"@) by {
        assert("icrc7:name"@.len() != "icrc7:description"@.len());
    }
    assert("icrc7:name"@ != "icrc7:logo"@) by {
        assert("icrc7:name"@[6] != "icrc7:logo"@[6]);
    }
    assert("icrc7:name"@ != "icrc7:supply_cap"@) by {
        assert("icrc7:name"@.len() != "icrc7:supply_cap"@.len());
    }
    assert("icrc7:name"@ != "icrc7:max_query_batch_size"@) by {
        assert("icrc7:name"@.len() != "icrc7:max_query_batch_size"@.len());
    }
    assert("icrc7:name"@ != "icrc7:max_update_batch_size"@) by {
        assert("icrc7:name"@.len() != "icrc7:max_update_batch_size"@.len());
    }
    assert("icrc7:name"@ != "icrc7:default_take_value"@) by {
        assert("icrc7:name"@.len() != "icrc7:default_take_value"@.len());
    }
    assert("icrc7:name"@ != "icrc7:max_take_value"@) by {
        assert("icrc7:name"@.len() != "icrc7:max_take_value"@.len());
    }
    assert("icrc7:name"@ != "icrc7:max_memo_size"@) by {
        assert("icrc7:name"@.len() != "icrc7:max_memo_size"@.len());
    }
    assert("icrc7:name"@ != "icrc7:atomic_batch_transfers"@) by {
        assert("icrc7:name"@.len() != "icrc7:atomic_batch_transfers"@.len());
    }
    assert("icrc7:name"@ != "icrc7:tx_window"@) by {
        assert("icrc7:name"@.len() != "icrc7:tx_window"@.len());
    }
    assert("icrc7:name"@ != "icrc7:permitted_drift"@) by {
        assert("icrc7:name"@.len() != "icrc7:permitted_drift"@.len());
    }
    lemma_metadata_items_plain(s, total_supply, ("icrc7:name"@, MetadataView::<V>::Text(t)));
}

/// The text under "icrc7:description" in the collection's entries, before sorting,
/// is the setting.
proof fn lemma_items_text_description<V>(s: CollectionSettings<V>, total_supply: u128, t: Seq<char>)
    ensures
        metadata_items(s, total_supply).contains(("icrc7:description"@, MetadataView::<V>::Text(t))) <==> (s.description matches Some(x) && x@ == t),
{
    reveal_strlit("icrc7:symbol");
    reveal_strlit("icrc7:name");
    reveal_strlit("icrc7:total_supply");
    reveal_strlit("icrc7:description");
    reveal_strlit("icrc7:logo");
    reveal_strlit("icrc7:supply_cap");
    reveal_strlit("icrc7:max_query_batch_size");
    reveal_strlit("icrc7:max_update_batch_size");
    reveal_strlit("icrc7:default_take_value");
    reveal_strlit("icrc7:max_take_value");
    reveal_strlit("icrc7:max_memo_size");
    reveal_strlit("icrc7:atomic_batch_transfers");
    reveal_strlit("icrc7:tx_window");
    reveal_strlit("icrc7:permitted_drift");
    assert("icrc7:name"@ != "icrc7:logo"@) by {
        assert("icrc7:name"@[6] != "icrc7:logo"@[6]);
    }
    assert("icrc7:symbol"@ != "icrc7:atomic_batch_transfers"@) by {
        assert("icrc7:symbol"@.len() != "icrc7:atomic_batch_transfers"@.len());
    }
    assert("icrc7:description"@ != "icrc7:symbol"@) by {
        assert("icrc7:description"@.len() != "icrc7:symbol"@.len());
    }
    assert("icrc7:description"@ != "icrc7:name"@) by {
        assert("icrc7:description"@.len() != "icrc7:name"@.len());
    }
    assert("icrc7:description"@ != "icrc7:total_supply"@) by {
        assert("icrc7:description"@.len() != "icrc7:total_supply"@.len());
    }
    assert("icrc7:description"@ != "icrc7:logo"@) by {
        assert("icrc7:description"@.len() != "icrc7:logo"@.len());
    }
    assert("icrc7:description"@ != "icrc7:supply_cap"@) by {
        assert("icrc7:description"@.len() != "icrc7:supply_cap"@.len());
    }
    assert("icrc7:description"@ != "icrc7:max_query_batch_size"@) by {
        assert("icrc7:description"@.len() != "icrc7:max_query_batch_size"@.len());
    }
    assert("icrc7:description"@ != "icrc7:max_update_batch_size"@) by {
        assert("icrc7:description"@.len() != "icrc7:max_update_batch_size"@.len());
    }
    assert("icrc7:description"@ != "icrc7:default_take_value"@) by {
        assert("icrc7:description"@.len() != "icrc7:default_take_value"@.len());
    }
    assert("icrc7:description"@ != "icrc7:max_take_value"@) by {
        assert("icrc7:description"@.len() != "icrc7:max_take_value"@.len());
    }
    assert("icrc7:description"@ != "icrc7:max_memo_size"@) by {
        assert("icrc7:description"@.len() != "icrc7:max_memo_size"@.len());
    }
    assert("icrc7:description"@ != "icrc7:atomic_batch_transfers"@) by {
        assert("icrc7:description"@.len() != "icrc7:atomic_batch_transfers"@.len());
    }
    assert("icrc7:description"@ != "icrc7:tx_window"@) by {
        assert("icrc7:description"@.len() != "icrc7:tx_window"@.len());
    }
    assert("icrc7:description"@ != "icrc7:permitted_drift"@) by {
        assert("icrc7:description"@.len() != "icrc7:permitted_drift"@.len());
    }
    lemma_metadata_items_plain(s, total_supply, ("icrc7:description"@, MetadataView::<V>::Text(t)));
}

/// The text under "icrc7:logo" in the collection's entries, before sorting,
/// is the setting.
proof fn lemma_items_text_logo<V>(s: CollectionSettings<V>, total_supply: u128, t: Seq<char>)
    ensures
        metadata_items(s, total_supply).contains(("icrc7:logo"@, MetadataView::<V>::Text(t))) <==> (s.logo matches Some(x) && x@ == t),
{
    reveal_strlit("icrc7:symbol");
    reveal_strlit("icrc7:name");
    reveal_strlit("icrc7:total_supply");
    reveal_strlit("icrc7:description");
    reveal_strlit("icrc7:logo");
    reveal_strlit("icrc7:supply_cap");
    reveal_strlit("icrc7:max_query_batch_size");
    reveal_strlit("icrc7:max_update_batch_size");
    reveal_strlit("icrc7:default_take_value");
    reveal_strlit("icrc7:max_take_value");
    reveal_strlit("icrc7:max_memo_size");
    reveal_strlit("icrc7:atomic_batch_transfers");
    reveal_strlit("icrc7:tx_window");
    reveal_strlit("icrc7:permitted_drift");
    assert("icrc7:name"@ != "icrc7:logo"@) by {
        assert("icrc7:name"@[6] != "icrc7:logo"@[6]);
    }
    assert("icrc7:symbol"@ != "icrc7:atomic_batch_transfers"@) by {
        assert("icrc7:symbol"@.len() != "icrc7:atomic_batch_transfers"@.len());
    }
    assert("icrc7:logo"@ != "icrc7:symbol"@) by {
        assert("icrc7:logo"@.len() != "icrc7:symbol"@.len());
    }
    assert("icrc7:logo"@ != "icrc7:name"@) by {
        assert("icrc7:logo"@[6] != "icrc7:name"@[6]);
    }
    assert("icrc7:logo"@ != "icrc7:total_supply"@) by {
        assert("icrc7:logo"@.len() != "icrc7:total_supply"@.len());
    }
    assert("icrc7:logo"@ != "icrc7:description"@) by {
        assert("icrc7:logo"@.len() != "icrc7:description"@.len());
    }
    assert("icrc7:logo"@ != "icrc7:supply_cap"@) by {
        assert("icrc7:logo"@.len() != "icrc7:supply_cap"@.len());
    }
    assert("icrc7:logo"@ != "icrc7:max_query_batch_size"@) by {
        assert("icrc7:logo"@.len() != "icrc7:max_query_batch_size"@.len());
    }
    assert("icrc7:logo"@ != "icrc7:max_update_batch_size"@) by {
        assert("icrc7:logo"@.len() != "icrc7:max_update_batch_size"@.len());
    }
    assert("icrc7:logo"@ != "icrc7:default_take_value"@) by {
        assert("icrc7:logo"@.len() != "icrc7:default_take_value"@.len());
    }
    assert("icrc7:logo"@ != "icrc7:max_take_value"@) by {
        assert("icrc7:logo"@.len() != "icrc7:max_take_value"@.len());
    }
    assert("icrc7:logo"@ != "icrc7:max_memo_size"@) by {
        assert("icrc7:logo"@.len() != "icrc7:max_memo_size"@.len());
    }
    assert("icrc7:logo"@ != "icrc7:atomic_batch_transfers"@) by {
        assert("icrc7:logo"@.len() != "icrc7:atomic_batch_transfers"@.len());
    }
    assert("icrc7:logo"@ != "icrc7:tx_window"@) by {
        assert("icrc7:logo"@.len() != "icrc7:tx_window"@.len());
    }
    assert("icrc7:logo"@ != "icrc7:permitted_drift"@) by {
        assert("icrc7:logo"@.len() != "icrc7:permitted_drift"@.len());
    }
    lemma_metadata_items_plain(s, total_supply, ("icrc7:logo"@, MetadataView::<V>::Text(t)));
}

/// The collection metadata reports each setting under its own key: a
/// listing sorted from the collection's entries holds ("icrc7:<field>",
/// value) exactly when the setting <field> is that value, and the total
/// supply under "icrc7:total_supply".
pub proof fn lemma_collection_metadata_reports_settings<V: Clone>(
    s: CollectionSettings<V>,
    total_supply: u128,
    r: Seq<(Seq<char>, MetadataView<V>)>,
    n: u128,
    t: Seq<char>,
)
    requires
        stably_sorted_from(r, metadata_items(s, total_supply)),
    ensures
        lists_entry(r, ("icrc7:total_supply"@, MetadataView::<V>::Nat(n))) <==> n == total_supply,
        lists_entry(r, ("icrc7:supply_cap"@, MetadataView::<V>::Nat(n))) <==> s.supply_cap == Some(n),
        lists_entry(r, ("icrc7:max_query_batch_size"@, MetadataView::<V>::Nat(n))) <==> s.max_query_batch_size == Some(n),
        lists_entry(r, ("icrc7:max_update_batch_size"@, MetadataView::<V>::Nat(n))) <==> s.max_update_batch_size == Some(n),
        lists_entry(r, ("icrc7:default_take_value"@, MetadataView::<V>::Nat(n))) <==> s.default_take_value == Some(n),
        lists_entry(r, ("icrc7:max_take_value"@, MetadataView::<V>::Nat(n))) <==> s.max_take_value == Some(n),
        lists_entry(r, ("icrc7:max_memo_size"@, MetadataView::<V>::Nat(n))) <==> s.max_memo_size == Some(n),
        lists_entry(r, ("icrc7:tx_window"@, MetadataView::<V>::Nat(n))) <==> s.tx_window == Some(n),
        lists_entry(r, ("icrc7:permitted_drift"@, MetadataView::<V>::Nat(n))) <==> s.permitted_drift == Some(n),
        lists_entry(r, ("icrc7:symbol"@, MetadataView::<V>::Text(t))) <==> t == s.symbol@,
        lists_entry(r, ("icrc7:name"@, MetadataView::<V>::Text(t))) <==> t == s.name@,
        lists_entry(r, ("icrc7:description"@, MetadataView::<V>::Text(t))) <==> (s.description matches Some(x) && x@ == t),
        lists_entry(r, ("icrc7:logo"@, MetadataView::<V>::Text(t))) <==> (s.logo matches Some(x) && x@ == t),
{
    lemma_items_nat_total_supply(s, total_supply, n);
    lemma_items_nat_supply_cap(s, total_supply, n);
    lemma_items_nat_max_query_batch_size(s, total_supply, n);
    lemma_items_nat_max_update_batch_size(s, total_supply, n);
    lemma_items_nat_default_take_value(s, total_supply, n);
    lemma_items_nat_max_take_value(s, total_supply, n);
    lemma_items_nat_max_memo_size(s, total_supply, n);
    lemma_items_nat_tx_window(s, total_supply, n);
    lemma_items_nat_permitted_drift(s, total_supply, n);
    lemma_items_text_symbol(s, total_supply, t);
    lemma_items_text_name(s, total_supply, t);
    lemma_items_text_description(s, total_supply, t);
    lemma_items_text_logo(s, total_supply, t);
    let items = metadata_items(s, total_supply);
    lemma_sorted_lists_plain(r, items, ("icrc7:total_supply"@, MetadataView::<V>::Nat(n)));
    lemma_sorted_lists_plain(r, items, ("icrc7:supply_cap"@, MetadataView::<V>::Nat(n)));
    lemma_sorted_lists_plain(r, items, ("icrc7:max_query_batch_size"@, MetadataView::<V>::Nat(n)));
    lemma_sorted_lists_plain(r, items, ("icrc7:max_update_batch_size"@, MetadataView::<V>::Nat(n)));
    lemma_sorted_lists_plain(r, items, ("icrc7:default_take_value"@, MetadataView::<V>::Nat(n)));
    lemma_sorted_lists_plain(r, items, ("icrc7:max_take_value"@, MetadataView::<V>::Nat(n)));
    lemma_sorted_lists_plain(r, items, ("icrc7:max_memo_size"@, MetadataView::<V>::Nat(n)));
    lemma_sorted_lists_plain(r, items, ("icrc7:tx_window"@, MetadataView::<V>::Nat(n)));
    lemma_sorted_lists_plain(r, items, ("icrc7:permitted_drift"@, MetadataView::<V>::Nat(n)));
    lemma_sorted_lists_plain(r, items, ("icrc7:symbol"@, MetadataView::<V>::Text(t)));
    lemma_sorted_lists_plain(r, items, ("icrc7:name"@, MetadataView::<V>::Text(t)));
    lemma_sorted_lists_plain(r, items, ("icrc7:description"@, MetadataView::<V>::Text(t)));
    lemma_sorted_lists_plain(r, items, ("icrc7:logo"@, MetadataView::<V>::Text(t)));
}

/// A symbol or name given to `update_collection_metadata` is what the
/// collection metadata reports afterwards under `icrc7:symbol` or
/// `icrc7:name`.
pub proof fn lemma_updated_names_listed<V: Clone>(
    before: CollectionSettings<V>,
    req: CollectionUpdate<V>,
    after: CollectionSettings<V>,
    total_supply: u128,
    r: Seq<(Seq<char>, MetadataView<V>)>,
)
    requires
        plain_settings_updated(before, req, after),
        stably_sorted_from(r, metadata_items(after, total_supply)),
    ensures
        req.symbol matches Some(x) ==> exists|i: int|
            0 <= i < r.len() && #[trigger] r[i] == ("icrc7:symbol"@, MetadataView::<V>::Text(x@)),
        req.name matches Some(x) ==> exists|i: int|
            0 <= i < r.len() && #[trigger] r[i] == ("icrc7:name"@, MetadataView::<V>::Text(x@)),
{
    let items = metadata_items(after, total_supply);
    let std = standard_items(after, total_supply);
    assert(std.len() >= 3);
    assert(items[0] == std[0]);
    assert(items[1] == std[1]);
    assert(std[0] == ("icrc7:symbol"@, MetadataView::<V>::Text(after.symbol@)));
    assert(std[1] == ("icrc7:name"@, MetadataView::<V>::Text(after.name@)));
    lemma_metadata_lists_every_entry(r, items, 0);
    lemma_metadata_lists_every_entry(r, items, 1);
    if req.symbol is Some {
        let i = choose|i: int| 0 <= i < r.len() && shows_item(items[0], #[trigger] r[i]);
        assert(r[i] == items[0]);
    }
    if req.name is Some {
        let i = choose|i: int| 0 <= i < r.len() && shows_item(items[1], #[trigger] r[i]);
        assert(r[i] == items[1]);
    }
}

} // verus!
