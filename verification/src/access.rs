//! Access rights of readers of private content, the readers an entry
//! resolves to, and the canonical identity that content is encrypted for.

use vstd::prelude::*;
use crate::keyed::{DeepCopy, KeyedMap, MapKey};
use crate::principal::{lemma_principal_order, principal_less, principal_lt, principal_text, PrincipalId};
use crate::text::{chars_of, push_all, string_from_chars};

verus! {

broadcast use vstd::string::group_string_axioms;

/// Access rights of a user to a vetKey or an encrypted map.
#[derive(Clone, Copy, PartialEq, Eq, PartialOrd, Ord, Debug, Structural)]
pub enum AccessRights {
    /// User can retrieve the vetKey or encrypted map.
    Read,
    /// User can update values in the encrypted map.
    ReadWrite,
    /// User can view/share/revoke access to the vetKey or encrypted map.
    ReadWriteManage,
}

/// What a kind of access rights allows.
pub trait AccessControl: Sized {
    /// Whether the user can read the vetKey or encrypted map.
    fn can_read(&self) -> bool;

    /// Whether the user can write to the vetKey or encrypted map.
    fn can_write(&self) -> bool;

    /// Whether the user can view the access rights to the vetKey or encrypted map.
    fn can_get_user_rights(&self) -> bool;

    /// Whether the user can modify the access rights to the vetKey or encrypted map.
    fn can_set_user_rights(&self) -> bool;

    /// The access rights of the owner of the vetKey or encrypted map.
    fn owner_rights() -> Self;
}

impl AccessControl for AccessRights {
    fn can_read(&self) -> (b: bool)
        ensures
            b,
    {
        match self {
            AccessRights::Read | AccessRights::ReadWrite | AccessRights::ReadWriteManage => true,
        }
    }

    fn can_write(&self) -> (b: bool)
        ensures
            b == (*self == AccessRights::ReadWrite || *self == AccessRights::ReadWriteManage),
    {
        match self {
            AccessRights::ReadWrite | AccessRights::ReadWriteManage => true,
            AccessRights::Read => false,
        }
    }

    fn can_get_user_rights(&self) -> (b: bool)
        ensures
            b == (*self == AccessRights::ReadWriteManage),
    {
        match self {
            AccessRights::ReadWriteManage => true,
            _ => false,
        }
    }

    fn can_set_user_rights(&self) -> (b: bool)
        ensures
            b == (*self == AccessRights::ReadWriteManage),
    {
        match self {
            AccessRights::ReadWriteManage => true,
            _ => false,
        }
    }

    fn owner_rights() -> (r: Self)
        ensures
            r == AccessRights::ReadWriteManage,
    {
        AccessRights::ReadWriteManage
    }
}

/// The byte that stores access rights.
pub open spec fn rights_byte(r: AccessRights) -> u8 {
    match r {
        AccessRights::Read => 0,
        AccessRights::ReadWrite => 1,
        AccessRights::ReadWriteManage => 2,
    }
}

/// The rights stored as `b`, if `b` stores any.
pub open spec fn rights_of_byte(b: u8) -> Option<AccessRights> {
    if b == 0 {
        Some(AccessRights::Read)
    } else if b == 1 {
        Some(AccessRights::ReadWrite)
    } else if b == 2 {
        Some(AccessRights::ReadWriteManage)
    } else {
        None
    }
}

/// Stored access rights read back as they were written, and a byte stores
/// rights exactly when it is at most 2, in which case writing those rights
/// gives the byte back.
pub proof fn lemma_rights_byte_round_trip(r: AccessRights, b: u8)
    ensures
        rights_of_byte(rights_byte(r)) == Some(r),
        rights_of_byte(b) is None <==> b > 2,
        rights_of_byte(b) matches Some(x) ==> rights_byte(x) == b,
{
}

impl AccessRights {
    /// The byte that stores these rights: 0, 1 or 2 in the order of the variants.
    pub fn to_byte(&self) -> (b: u8)
        ensures
            b == rights_byte(*self),
    {
        match self {
            AccessRights::Read => 0,
            AccessRights::ReadWrite => 1,
            AccessRights::ReadWriteManage => 2,
        }
    }

    /// The rights stored as `b`, if `b` stores any.
    pub fn from_byte(b: u8) -> (r: Option<AccessRights>)
        ensures
            r == rights_of_byte(b),
            match r {
                Some(r) => rights_byte(r) == b,
                None => b > 2,
            },
    {
        if b == 0 {
            Some(AccessRights::Read)
        } else if b == 1 {
            Some(AccessRights::ReadWrite)
        } else if b == 2 {
            Some(AccessRights::ReadWriteManage)
        } else {
            None
        }
    }
}

/// The rights of a reader, and the name it goes by.
pub struct ReaderInfo {
    pub rights: AccessRights,
    pub alias: Option<String>,
}

pub struct ReaderInfoView {
    pub rights: AccessRights,
    pub alias: Option<Seq<char>>,
}

impl View for ReaderInfo {
    type V = ReaderInfoView;

    open spec fn view(&self) -> ReaderInfoView {
        ReaderInfoView {
            rights: self.rights,
            alias: match self.alias {
                Some(a) => Some(a@),
                None => None,
            },
        }
    }
}

impl DeepCopy for ReaderInfo {
    fn deep_copy(&self) -> (c: Self) {
        let alias = match &self.alias {
            Some(a) => Some(a.clone()),
            None => None,
        };
        ReaderInfo { rights: self.rights, alias }
    }
}

/// Readers by principal.
pub type Readers = KeyedMap<PrincipalId, ReaderInfo>;

/// Whether two reader infos have the same rights and alias.
pub fn reader_info_equal(a: &ReaderInfo, b: &ReaderInfo) -> (r: bool)
    ensures
        r == (a@ == b@),
{
    if a.rights != b.rights {
        return false;
    }
    match (&a.alias, &b.alias) {
        (Some(x), Some(y)) => *x == *y,
        (None, None) => true,
        _ => false,
    }
}

/// The readers of an entry: the default readers, overridden by the entry's own.
pub fn resolve_readers(entry_readers: &Readers, default_readers: &Readers) -> (r: Readers)
    ensures
        r@ == default_readers@.union_prefer_right(entry_readers@),
{
    let mut readers = default_readers.deep_copy();
    let n = entry_readers.len();
    let mut i: usize = 0;
    while i < n
        invariant
            n == entry_readers.spec_len(),
            entry_readers.inv(),
            i <= n,
            readers@ == default_readers@.union_prefer_right(
                entry_readers@.restrict(
                    Set::new(|k: Seq<u8>| exists|j: int| 0 <= j < i && entry_readers.spec_key_at(j) == k),
                ),
            ),
        decreases n - i,
    {
        proof {
            entry_readers.lemma_positions();
        }
        let k = entry_readers.key_at(i).key_copy();
        let v = entry_readers.value_at(i).deep_copy();
        let ghost before = readers@;
        readers.insert(k, v);
        proof {
            let done = Set::new(|q: Seq<u8>| exists|j: int| 0 <= j < i + 1 && entry_readers.spec_key_at(j) == q);
            assert(entry_readers@.contains_key(entry_readers.spec_key_at(i as int)));
            assert(readers@ =~= default_readers@.union_prefer_right(entry_readers@.restrict(done)));
        }
        i += 1;
    }
    proof {
        entry_readers.lemma_positions();
        let done = Set::new(|q: Seq<u8>| exists|j: int| 0 <= j < n && entry_readers.spec_key_at(j) == q);
        assert(entry_readers@.restrict(done) =~= entry_readers@) by {
            assert forall|q: Seq<u8>| entry_readers@.contains_key(q) implies done.contains(q) by {
                let j = entry_readers.spec_index_of(q);
                assert(entry_readers.spec_key_at(j) == q);
            }
        }
    }
    readers
}

/// Whether two reader maps hold the same principals with the same rights and aliases.
pub fn readers_equal(a: &Readers, b: &Readers) -> (r: bool)
    ensures
        r == (a@ == b@),
{
    if a.len() != b.len() {
        proof {
            if a@ == b@ {
                assert(a@.len() == b@.len());
            }
        }
        return false;
    }
    let n = a.len();
    let mut i: usize = 0;
    while i < n
        invariant
            n == a.spec_len(),
            a.inv(),
            a@.len() == b@.len(),
            i <= n,
            forall|j: int|
                0 <= j < i ==> b@.contains_key(#[trigger] a.spec_key_at(j)) && b@[a.spec_key_at(j)]
                    == a.spec_value_at(j),
        decreases n - i,
    {
        proof {
            a.lemma_positions();
        }
        match b.get(a.key_at(i)) {
            Some(bv) => {
                if !reader_info_equal(a.value_at(i), bv) {
                    return false;
                }
            },
            None => {
                return false;
            },
        }
        i += 1;
    }
    proof {
        a.lemma_positions();
        use_type_invariant(b);
        b.lemma_positions();
        assert forall|k: Seq<u8>| a@.contains_key(k) implies b@.contains_key(k) && b@[k] == a@[k] by {
            let j = a.spec_index_of(k);
            assert(a.spec_key_at(j) == k);
        }
        assert(a@.dom().subset_of(b@.dom()));
        vstd::set_lib::lemma_subset_equality(a@.dom(), b@.dom());
        assert(a@ =~= b@);
    }
    true
}

/// The textual forms of the principals `ps`, joined by commas.
pub open spec fn joined_texts(ps: Seq<Seq<u8>>) -> Seq<char>
    decreases ps.len(),
{
    if ps.len() == 0 {
        Seq::empty()
    } else if ps.len() == 1 {
        principal_text(ps[0])
    } else {
        joined_texts(ps.drop_last()) + seq![','] + principal_text(ps.last())
    }
}

/// `ps` lists the principals of `s` in increasing order, each once.
pub open spec fn sorted_listing(ps: Seq<Seq<u8>>, s: Set<Seq<u8>>) -> bool {
    &&& forall|i: int, j: int| 0 <= i < j < ps.len() ==> principal_lt(#[trigger] ps[i], #[trigger] ps[j])
    &&& forall|i: int| 0 <= i < ps.len() ==> s.contains(#[trigger] ps[i])
    &&& forall|p: Seq<u8>| #[trigger] s.contains(p) ==> exists|i: int| 0 <= i < ps.len() && ps[i] == p
}

/// `id` is the identity that content readable by the principals `resolved`
/// and the owner is encrypted for: the bytes of their textual forms, in the
/// order of principals, joined by commas.
pub open spec fn is_canonical_identity(owner: Seq<u8>, resolved: Set<Seq<u8>>, id: Seq<u8>) -> bool {
    exists|ps: Seq<Seq<u8>>|
        #[trigger] sorted_listing(ps, resolved.insert(owner)) && id == vstd::utf8::encode_utf8(joined_texts(ps))
}

/// The views of a list of principals.
pub open spec fn principal_views(ps: Seq<PrincipalId>) -> Seq<Seq<u8>> {
    ps.map_values(|p: PrincipalId| p@)
}

/// Puts `p`, which `out` does not hold, into the sorted list `out` where it belongs.
fn insert_principal_sorted(out: &mut Vec<PrincipalId>, p: PrincipalId)
    requires
        forall|i: int, j: int|
            0 <= i < j < old(out)@.len() ==> principal_lt(
                #[trigger] principal_views(old(out)@)[i],
                #[trigger] principal_views(old(out)@)[j],
            ),
        forall|i: int| 0 <= i < old(out)@.len() ==> (#[trigger] old(out)@[i])@ != p@,
    ensures
        forall|i: int, j: int|
            0 <= i < j < final(out)@.len() ==> principal_lt(
                #[trigger] principal_views(final(out)@)[i],
                #[trigger] principal_views(final(out)@)[j],
            ),
        principal_views(final(out)@).to_set() == principal_views(old(out)@).to_set().insert(p@),
        final(out)@.len() == old(out)@.len() + 1,
{
    let ghost s = principal_views(out@);
    let mut pos: usize = 0;
    while pos < out.len()
        invariant
            pos <= out@.len(),
            s == principal_views(out@),
            forall|j: int| 0 <= j < pos ==> principal_lt(#[trigger] s[j], p@),
        ensures
            pos <= out@.len(),
            forall|j: int| 0 <= j < pos ==> principal_lt(#[trigger] s[j], p@),
            pos < out@.len() ==> !principal_lt(s[pos as int], p@),
        decreases out@.len() - pos,
    {
        assert(s[pos as int] == out@[pos as int]@);
        if !principal_less(&out[pos], &p) {
            break;
        }
        pos += 1;
    }
    proof {
        if pos < s.len() {
            assert(s[pos as int] != p@);
            lemma_principal_order(s[pos as int], p@, p@);
            assert forall|j: int| pos <= j < s.len() implies principal_lt(p@, #[trigger] s[j]) by {
                lemma_principal_order(p@, s[pos as int], s[j]);
            }
        }
    }
    let ghost pv = p@;
    out.insert(pos, p);
    proof {
        let t = principal_views(out@);
        assert(t =~= s.insert(pos as int, pv));
        s.insert_ensures(pos as int, pv);
        assert forall|i: int, j: int| 0 <= i < j < t.len() implies principal_lt(
            #[trigger] t[i],
            #[trigger] t[j],
        ) by {
            if i < pos && j > pos {
                lemma_principal_order(s[i], pv, s[j - 1]);
            }
        }
        assert(t.to_set() =~= s.to_set().insert(pv)) by {
            assert forall|q: Seq<u8>| t.to_set().contains(q) implies s.to_set().insert(pv).contains(q) by {
                let k = choose|k: int| 0 <= k < t.len() && t[k] == q;
                if k < pos {
                    assert(s[k] == q);
                } else if k > pos {
                    assert(s[k - 1] == q);
                }
            }
            assert forall|q: Seq<u8>| s.to_set().insert(pv).contains(q) implies t.to_set().contains(q) by {
                if q == pv {
                    assert(t[pos as int] == q);
                } else {
                    let k = choose|k: int| 0 <= k < s.len() && s[k] == q;
                    if k < pos {
                        assert(t[k] == q);
                    } else {
                        assert(t[k + 1] == q);
                    }
                }
            }
        }
    }
}

/// The identity that the content of an entry is encrypted for: the owner and
/// the resolved readers, in the order of principals, as the bytes of their
/// textual forms joined by commas.
pub fn construct_canonical_identity(owner: PrincipalId, readers: &Readers, default_readers: &Readers) -> (r: Vec<u8>)
    ensures
        is_canonical_identity(owner@, default_readers@.union_prefer_right(readers@).dom(), r@),
{
    let resolved = resolve_readers(readers, default_readers);
    let ghost dom = resolved@.dom();
    let mut principals: Vec<PrincipalId> = Vec::new();
    let n = resolved.len();
    let mut i: usize = 0;
    while i < n
        invariant
            n == resolved.spec_len(),
            resolved.inv(),
            i <= n,
            principals@.len() == i,
            forall|a: int, b: int|
                0 <= a < b < principals@.len() ==> principal_lt(
                    #[trigger] principal_views(principals@)[a],
                    #[trigger] principal_views(principals@)[b],
                ),
            principal_views(principals@).to_set() == Set::new(
                |q: Seq<u8>| exists|j: int| 0 <= j < i && resolved.spec_key_at(j) == q,
            ),
        decreases n - i,
    {
        proof {
            resolved.lemma_positions();
        }
        let p = resolved.key_at(i).key_copy();
        proof {
            assert forall|a: int| 0 <= a < principals@.len() implies (#[trigger] principals@[a])@ != p@ by {
                assert(principal_views(principals@)[a] == principals@[a]@);
                assert(principal_views(principals@).to_set().contains(principals@[a]@));
                let j = choose|j: int| 0 <= j < i && resolved.spec_key_at(j) == principals@[a]@;
                assert(resolved.spec_key_at(j) != resolved.spec_key_at(i as int));
            }
        }
        insert_principal_sorted(&mut principals, p);
        proof {
            assert(principal_views(principals@).to_set() =~= Set::new(
                |q: Seq<u8>| exists|j: int| 0 <= j < i + 1 && resolved.spec_key_at(j) == q,
            ));
        }
        i += 1;
    }
    proof {
        resolved.lemma_positions();
        assert(principal_views(principals@).to_set() =~= dom) by {
            assert forall|q: Seq<u8>| dom.contains(q) implies exists|j: int| 0 <= j < n && resolved.spec_key_at(j) == q by {
                let j = resolved.spec_index_of(q);
                assert(resolved.spec_key_at(j) == q);
            }
        }
    }
    if !resolved.contains_key(&owner) {
        proof {
            assert forall|a: int| 0 <= a < principals@.len() implies (#[trigger] principals@[a])@ != owner@ by {
                assert(principal_views(principals@)[a] == principals@[a]@);
                assert(principal_views(principals@).to_set().contains(principals@[a]@));
            }
        }
        insert_principal_sorted(&mut principals, owner);
    } else {
        proof {
            assert(dom.insert(owner@) =~= dom);
        }
    }
    let ghost ps = principal_views(principals@);
    let mut text: Vec<char> = Vec::new();
    let m = principals.len();
    let mut k: usize = 0;
    while k < m
        invariant
            m == principals@.len(),
            ps == principal_views(principals@),
            k <= m,
            text@ == joined_texts(ps.take(k as int)),
        decreases m - k,
    {
        assert(ps.take(k + 1).drop_last() =~= ps.take(k as int));
        assert(ps[k as int] == principals@[k as int]@);
        if k > 0 {
            text.push(',');
        }
        let t = chars_of(principals[k].to_text().as_str());
        push_all(&mut text, &t);
        proof {
            if k == 0 {
                assert(text@ =~= joined_texts(ps.take(1)));
            } else {
                assert(text@ =~= joined_texts(ps.take(k + 1)));
            }
        }
        k += 1;
    }
    proof {
        assert(ps.take(m as int) =~= ps);
        let target = default_readers@.union_prefer_right(readers@).dom().insert(owner@);
        assert(dom == default_readers@.union_prefer_right(readers@).dom());
        assert(sorted_listing(ps, target)) by {
            assert forall|a: int| 0 <= a < ps.len() implies target.contains(#[trigger] ps[a]) by {
                assert(ps.to_set().contains(ps[a]));
            }
            assert forall|q: Seq<u8>| #[trigger] target.contains(q) implies exists|a: int| 0 <= a < ps.len() && ps[a] == q by {
                assert(ps.to_set().contains(q));
            }
        }
    }
    let joined = string_from_chars(&text);
    vstd::slice::slice_to_vec(joined.as_str().as_bytes())
}

} // verus!
