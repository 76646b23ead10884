//! What a token's public and private content entries say of themselves.

use vstd::prelude::*;
use crate::access::{AccessRights, ReaderInfo, ReaderInfoView};
use crate::display::{nat_text, nat_to_text};
use crate::keyed::MapKey;
use crate::principal::PrincipalId;
use crate::private_content::{PrivateContentStatus, PrivateContentSystem, PrivateEntry, PrivateEntryView};
use crate::public_content::{PublicContentSystem, PublicEntry, PublicEntryView};
use crate::text::{chars_of, push_all, string_from_chars};
use crate::upload::UploadState;

verus! {

/// A public entry of a token, under its name.
pub struct PublicEntryDetail {
    pub name: String,
    pub state: UploadState,
    pub hash: String,
    pub file_size: u64,
    pub storage_canister_id: PrincipalId,
    pub storage_path: String,
}

pub struct PublicEntryDetailView {
    pub name: Seq<char>,
    pub state: UploadState,
    pub hash: Seq<char>,
    pub file_size: u64,
    pub storage_canister_id: Seq<u8>,
    pub storage_path: Seq<char>,
}

impl View for PublicEntryDetail {
    type V = PublicEntryDetailView;

    open spec fn view(&self) -> PublicEntryDetailView {
        PublicEntryDetailView {
            name: self.name@,
            state: self.state,
            hash: self.hash@,
            file_size: self.file_size,
            storage_canister_id: self.storage_canister_id@,
            storage_path: self.storage_path@,
        }
    }
}

/// The detail of the public entry `e` named `name`.
pub open spec fn public_detail(name: Seq<char>, e: PublicEntryView) -> PublicEntryDetailView {
    PublicEntryDetailView {
        name,
        state: e.state,
        hash: e.hash,
        file_size: e.file_size,
        storage_canister_id: e.storage_canister_id,
        storage_path: e.storage_path,
    }
}

/// `v` details every entry of `es` once.
pub open spec fn lists_public_details(v: Seq<PublicEntryDetail>, es: Map<Seq<char>, PublicEntryView>) -> bool {
    &&& v.len() == es.len()
    &&& forall|i: int|
        0 <= i < v.len() ==> es.contains_key((#[trigger] v[i]).name@) && v[i]@ == public_detail(
            v[i].name@,
            es[v[i].name@],
        )
    &&& forall|i: int, j: int| 0 <= i < j < v.len() ==> (#[trigger] v[i]).name@ != (#[trigger] v[j]).name@
}

/// The message for a token without public content.
pub open spec fn no_public_content_message(token_id: u128) -> Seq<char> {
    "NFT "@ + nat_text(token_id) + " has no public content"@
}

/// The message for a token without private content.
pub open spec fn no_private_content_message(token_id: u128) -> Seq<char> {
    "NFT "@ + nat_text(token_id) + " has no private content"@
}

/// The message for a missing entry; `kind` is "Public" or "Private".
pub open spec fn missing_entry_message(kind: Seq<char>, name: Seq<char>) -> Seq<char> {
    kind + " entry '"@ + name + "' not found"@
}

fn no_content(token_id: u128, public: bool) -> (m: String)
    ensures
        public ==> m@ == no_public_content_message(token_id),
        !public ==> m@ == no_private_content_message(token_id),
{
    let mut c = chars_of("NFT ");
    let n = chars_of(nat_to_text(token_id).as_str());
    push_all(&mut c, &n);
    let tail = if public {
        chars_of(" has no public content")
    } else {
        chars_of(" has no private content")
    };
    push_all(&mut c, &tail);
    string_from_chars(&c)
}

fn missing_entry(public: bool, name: &String) -> (m: String)
    ensures
        public ==> m@ == missing_entry_message("Public"@, name@),
        !public ==> m@ == missing_entry_message("Private"@, name@),
{
    let mut c = if public {
        chars_of("Public")
    } else {
        chars_of("Private")
    };
    let a = chars_of(" entry '");
    push_all(&mut c, &a);
    let n = chars_of(name.as_str());
    push_all(&mut c, &n);
    let b = chars_of("' not found");
    push_all(&mut c, &b);
    string_from_chars(&c)
}

fn public_entry_detail(name: &String, e: &PublicEntry) -> (d: PublicEntryDetail)
    ensures
        d@ == public_detail(name@, e@),
{
    PublicEntryDetail {
        name: name.clone(),
        state: e.state,
        hash: e.hash.clone(),
        file_size: e.file_size,
        storage_canister_id: e.storage_canister_id.key_copy(),
        storage_path: e.storage_path.clone(),
    }
}

/// The public entries of a token: the one named, or all of them.
pub fn get_public_content_metadata(
    public: &PublicContentSystem,
    token_id: u128,
    entry_name: &Option<String>,
) -> (r: Result<Vec<PublicEntryDetail>, String>)
    ensures
        !public@.nft_public.contains_key(token_id) ==> (r matches Err(m) && m@ == no_public_content_message(
            token_id,
        )),
        public@.nft_public.contains_key(token_id) ==> ({
            let es = public@.nft_public[token_id].entries;
            match entry_name {
                Some(n) => if es.contains_key(n@) {
                    r matches Ok(v) && v@.len() == 1 && v@[0]@ == public_detail(n@, es[n@])
                } else {
                    r matches Err(m) && m@ == missing_entry_message("Public"@, n@)
                },
                None => r matches Ok(v) && lists_public_details(v@, es),
            }
        }),
{
    let record = match public.nft_public.get(&token_id) {
        Some(r) => r,
        None => return Err(no_content(token_id, true)),
    };
    match entry_name {
        Some(name) => match record.entries.get(name) {
            Some(e) => {
                let mut v: Vec<PublicEntryDetail> = Vec::new();
                v.push(public_entry_detail(name, e));
                Ok(v)
            },
            None => Err(missing_entry(true, name)),
        },
        None => {
            let pairs = record.entries.to_pairs();
            let mut v: Vec<PublicEntryDetail> = Vec::new();
            let mut i: usize = 0;
            while i < pairs.len()
                invariant
                    i <= pairs@.len(),
                    v@.len() == i,
                    forall|k: int| 0 <= k < i ==> (#[trigger] v@[k])@ == public_detail(pairs@[k].0@, pairs@[k].1@),
                decreases pairs@.len() - i,
            {
                v.push(public_entry_detail(&pairs[i].0, &pairs[i].1));
                i += 1;
            }
            proof {
                let es = public@.nft_public[token_id].entries;
                assert forall|a: int, b: int| 0 <= a < b < v@.len() implies (#[trigger] v@[a]).name@ != (
                #[trigger] v@[b]).name@ by {
                    assert(v@[a].name@ == pairs@[a].0@);
                    assert(v@[b].name@ == pairs@[b].0@);
                }
                assert forall|a: int| 0 <= a < v@.len() implies es.contains_key((#[trigger] v@[a]).name@)
                    && v@[a]@ == public_detail(v@[a].name@, es[v@[a].name@]) by {
                    assert(v@[a].name@ == pairs@[a].0@);
                }
            }
            Ok(v)
        },
    }
}

/// A reader of a private entry.
pub struct ReaderDetail {
    pub principal: PrincipalId,
    pub rights: AccessRights,
    pub alias: Option<String>,
}

impl View for ReaderDetail {
    type V = (Seq<u8>, ReaderInfoView);

    open spec fn view(&self) -> (Seq<u8>, ReaderInfoView) {
        (
            self.principal@,
            ReaderInfoView {
                rights: self.rights,
                alias: match self.alias {
                    Some(a) => Some(a@),
                    None => None,
                },
            },
        )
    }
}

/// `v` lists every reader of `rs` once.
pub open spec fn lists_readers(v: Seq<ReaderDetail>, rs: Map<Seq<u8>, ReaderInfoView>) -> bool {
    &&& v.len() == rs.len()
    &&& forall|i: int| 0 <= i < v.len() ==> rs.contains_key((#[trigger] v[i])@.0) && rs[v[i]@.0] == v[i]@.1
    &&& forall|i: int, j: int| 0 <= i < j < v.len() ==> (#[trigger] v[i])@.0 != (#[trigger] v[j])@.0
}

/// A private entry of a token, under its name.
pub struct PrivateEntryDetail {
    pub name: String,
    pub status: PrivateContentStatus,
    pub readers: Vec<ReaderDetail>,
    pub plaintext_hash: [u8; 32],
    pub plaintext_size: u64,
    pub storage_canister_id: PrincipalId,
    pub storage_path: String,
}

/// `d` details the private entry `e` named `name`.
pub open spec fn is_private_detail(d: PrivateEntryDetail, name: Seq<char>, e: PrivateEntryView) -> bool {
    &&& d.name@ == name
    &&& d.status == e.status
    &&& lists_readers(d.readers@, e.readers)
    &&& d.plaintext_hash@ == e.hash
    &&& d.plaintext_size == e.plaintext_size
    &&& d.storage_canister_id@ == e.storage_canister_id
    &&& d.storage_path@ == e.storage_path
}

fn private_entry_detail(name: &String, e: &PrivateEntry) -> (d: PrivateEntryDetail)
    ensures
        is_private_detail(d, name@, e@),
{
    let pairs = e.readers.to_pairs();
    let mut readers: Vec<ReaderDetail> = Vec::new();
    let mut i: usize = 0;
    while i < pairs.len()
        invariant
            i <= pairs@.len(),
            readers@.len() == i,
            forall|k: int| 0 <= k < i ==> (#[trigger] readers@[k])@ == (pairs@[k].0@, pairs@[k].1@),
        decreases pairs@.len() - i,
    {
        let info: &ReaderInfo = &pairs[i].1;
        let alias = match &info.alias {
            Some(a) => Some(a.clone()),
            None => None,
        };
        readers.push(ReaderDetail { principal: pairs[i].0.key_copy(), rights: info.rights, alias });
        i += 1;
    }
    proof {
        assert forall|a: int, b: int| 0 <= a < b < readers@.len() implies (#[trigger] readers@[a])@.0 != (
        #[trigger] readers@[b])@.0 by {
            assert(readers@[a]@.0 == pairs@[a].0@);
            assert(readers@[b]@.0 == pairs@[b].0@);
        }
        assert forall|a: int| 0 <= a < readers@.len() implies e@.readers.contains_key(
            (#[trigger] readers@[a])@.0,
        ) && e@.readers[readers@[a]@.0] == readers@[a]@.1 by {
            assert(readers@[a]@ == (pairs@[a].0@, pairs@[a].1@));
        }
    }
    PrivateEntryDetail {
        name: name.clone(),
        status: e.status,
        readers,
        plaintext_hash: e.hash,
        plaintext_size: e.plaintext_size,
        storage_canister_id: e.storage_canister_id.key_copy(),
        storage_path: e.storage_path.clone(),
    }
}

/// The private entries of a token, with their readers: the one named, or
/// all of them.
pub fn get_private_content_metadata(
    private: &PrivateContentSystem,
    token_id: u128,
    entry_name: &Option<String>,
) -> (r: Result<Vec<PrivateEntryDetail>, String>)
    ensures
        !private@.nft_private.contains_key(token_id) ==> (r matches Err(m) && m@
            == no_private_content_message(token_id)),
        private@.nft_private.contains_key(token_id) ==> ({
            let es = private@.nft_private[token_id].entries;
            match entry_name {
                Some(n) => if es.contains_key(n@) {
                    r matches Ok(v) && v@.len() == 1 && is_private_detail(v@[0], n@, es[n@])
                } else {
                    r matches Err(m) && m@ == missing_entry_message("Private"@, n@)
                },
                None => r matches Ok(v) && v@.len() == es.len() && (forall|i: int|
                    0 <= i < v@.len() ==> es.contains_key((#[trigger] v@[i]).name@) && is_private_detail(
                        v@[i],
                        v@[i].name@,
                        es[v@[i].name@],
                    )) && (forall|i: int, j: int|
                    0 <= i < j < v@.len() ==> (#[trigger] v@[i]).name@ != (#[trigger] v@[j]).name@),
            }
        }),
{
    let record = match private.nft_private.get(&token_id) {
        Some(r) => r,
        None => return Err(no_content(token_id, false)),
    };
    match entry_name {
        Some(name) => match record.entries.get(name) {
            Some(e) => {
                let mut v: Vec<PrivateEntryDetail> = Vec::new();
                v.push(private_entry_detail(name, e));
                Ok(v)
            },
            None => Err(missing_entry(false, name)),
        },
        None => {
            let pairs = record.entries.to_pairs();
            let mut v: Vec<PrivateEntryDetail> = Vec::new();
            let mut i: usize = 0;
            while i < pairs.len()
                invariant
                    i <= pairs@.len(),
                    v@.len() == i,
                    forall|k: int|
                        0 <= k < i ==> is_private_detail(#[trigger] v@[k], pairs@[k].0@, pairs@[k].1@),
                decreases pairs@.len() - i,
            {
                v.push(private_entry_detail(&pairs[i].0, &pairs[i].1));
                i += 1;
            }
            proof {
                let es = private@.nft_private[token_id].entries;
                assert forall|a: int, b: int| 0 <= a < b < v@.len() implies (#[trigger] v@[a]).name@ != (
                #[trigger] v@[b]).name@ by {
                    assert(v@[a].name@ == pairs@[a].0@);
                    assert(v@[b].name@ == pairs@[b].0@);
                }
                assert forall|a: int| 0 <= a < v@.len() implies es.contains_key((#[trigger] v@[a]).name@)
                    && is_private_detail(v@[a], v@[a].name@, es[v@[a].name@]) by {
                    assert(v@[a].name@ == pairs@[a].0@);
                }
            }
            Ok(v)
        },
    }
}

} // verus!
