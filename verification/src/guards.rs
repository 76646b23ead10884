//! Guards of the management endpoints: one management call at a time, a
//! sliding-window rate limit per token, and who may see or change the private
//! content of a token.
//!
//! The token's owner is handed in as read from the ledger (`None` when the
//! token does not exist), and the caller as the principal of the call.

use vstd::prelude::*;
use crate::access::{resolve_readers, AccessControl, AccessRights};
use crate::display::{decimal, decimal_text};
use crate::keyed::{KeyedMap, KeyedSet, MapKey};
use crate::principal::PrincipalId;
use crate::private_content::{
    private_entry_not_found_message, private_nft_not_found_message, PrivateContentStatus,
    PrivateContentSystem, PrivateContentView,
};
use crate::text::{chars_of, push_all, string_from_chars};

verus! {

broadcast use vstd::string::group_string_axioms;

/// How many management calls may run at once.
pub const MAX_CONCURRENT: usize = 1;

/// How many calls a token allows within the sliding window.
pub const SLIDING_WINDOW_CALLS: usize = 5;

/// The length of the sliding window, in nanoseconds (60 ms).
pub const SLIDING_WINDOW_DURATION_NS: u64 = 60_000_000;

/// A management call in progress, held by the principal that made it.
pub struct GuardManagement {
    principal: PrincipalId,
}

impl View for GuardManagement {
    type V = Seq<u8>;

    closed spec fn view(&self) -> Seq<u8> {
        self.principal@
    }
}

impl GuardManagement {
    /// Lets `principal` start a management call, recording it in `guards`,
    /// unless `MAX_CONCURRENT` calls are already running.
    pub fn new(guards: &mut KeyedSet<PrincipalId>, principal: PrincipalId) -> (r: Result<Self, String>)
        ensures
            old(guards)@.len() >= MAX_CONCURRENT ==> (r matches Err(m) && m@
                == "Service is already running a management query, try again shortly"@)
                && final(guards)@ == old(guards)@,
            old(guards)@.len() < MAX_CONCURRENT ==> (r matches Ok(g) && g@ == principal@)
                && final(guards)@ == old(guards)@.insert(principal@),
    {
        if guards.len() >= MAX_CONCURRENT {
            return Err("Service is already running a management query, try again shortly".to_string());
        }
        guards.insert(principal.key_copy());
        Ok(GuardManagement { principal })
    }

    /// Ends the management call: its principal leaves `guards`.
    pub fn release(self, guards: &mut KeyedSet<PrincipalId>)
        ensures
            final(guards)@ == old(guards)@.remove(self@),
    {
        guards.remove(&self.principal);
    }
}

/// The calls of a history that are still within the window at `now`.
pub open spec fn recent_calls(history: Seq<u64>, now: u64) -> Seq<u64> {
    history.filter(|t: u64| now - t < SLIDING_WINDOW_DURATION_NS)
}

/// The message of a call refused by the rate limit, `wait` being how long
/// until the oldest call in the window leaves it.
pub open spec fn rate_limit_message(wait: nat) -> Seq<char> {
    "Rate limit exceeded. You can make another call in "@ + decimal(wait) + " milliseconds"@
}

/// Admits a call on the token `token_id` at `now`, unless the token already
/// had `SLIDING_WINDOW_CALLS` calls within the window; either way the
/// token's history keeps only the calls within the window, and an admitted
/// call joins it.
pub fn guard_sliding_window(windows: &mut KeyedMap<u128, Vec<u64>>, token_id: u128, now: u64) -> (r:
    Result<(), String>)
    requires
        old(windows)@.contains_key(token_id) ==> forall|i: int|
            0 <= i < old(windows)@[token_id].len() ==> #[trigger] old(windows)@[token_id][i] <= now,
    ensures
        ({
            let history = if old(windows)@.contains_key(token_id) {
                old(windows)@[token_id]
            } else {
                Seq::<u64>::empty()
            };
            let recent = recent_calls(history, now);
            &&& recent.len() >= SLIDING_WINDOW_CALLS ==> (r matches Err(m) && m@ == rate_limit_message(
                (SLIDING_WINDOW_DURATION_NS - (now - recent[0])) as nat,
            )) && final(windows)@ == old(windows)@.insert(token_id, recent)
            &&& recent.len() < SLIDING_WINDOW_CALLS ==> r is Ok && final(windows)@ == old(
                windows,
            )@.insert(token_id, recent.push(now))
        }),
{
    let history: Vec<u64> = match windows.remove(&token_id) {
        Some(h) => h,
        None => Vec::new(),
    };
    let ghost h = history@;
    let mut recent: Vec<u64> = Vec::new();
    let mut i: usize = 0;
    while i < history.len()
        invariant
            i <= history@.len(),
            h == history@,
            forall|j: int| 0 <= j < h.len() ==> #[trigger] h[j] <= now,
            recent@ == recent_calls(h.take(i as int), now),
        decreases history@.len() - i,
    {
        assert(h.take(i + 1).drop_last() =~= h.take(i as int));
        let t = history[i];
        if now - t < SLIDING_WINDOW_DURATION_NS {
            recent.push(t);
        }
        proof {
            h.take(i as int).lemma_filter_push(t, |t: u64| now - t < SLIDING_WINDOW_DURATION_NS);
            assert(h.take(i as int).push(t) =~= h.take(i + 1));
        }
        i += 1;
    }
    assert(h.take(h.len() as int) =~= h);
    if recent.len() >= SLIDING_WINDOW_CALLS {
        let oldest = recent[0];
        proof {
            let f = |t: u64| now - t < SLIDING_WINDOW_DURATION_NS;
            h.lemma_filter_pred(f, 0);
            h.lemma_filter_contains_rev(f, recent@[0]);
            assert(h.filter(f).contains(recent@[0]));
            let j = choose|j: int| 0 <= j < h.len() && h[j] == recent@[0];
            assert(h[j] <= now);
        }
        let wait = SLIDING_WINDOW_DURATION_NS - (now - oldest);
        let mut m = chars_of("Rate limit exceeded. You can make another call in ");
        let digits = chars_of(decimal_text(wait as u128).as_str());
        push_all(&mut m, &digits);
        let tail = chars_of(" milliseconds");
        push_all(&mut m, &tail);
        windows.insert(token_id, recent);
        return Err(string_from_chars(&m));
    }
    recent.push(now);
    windows.insert(token_id, recent);
    Ok(())
}

/// The readers that an entry of the token `t` resolves to.
pub open spec fn entry_readers(v: PrivateContentView, t: u128, name: Seq<char>) -> Map<
    Seq<u8>,
    crate::access::ReaderInfoView,
> {
    v.nft_private[t].default_readers.union_prefer_right(v.nft_private[t].entries[name].readers)
}

/// The caller may act as the owner of the token.
pub fn caller_is_nft_owner(owner: Option<&PrincipalId>, caller: &PrincipalId) -> (r: Result<(), String>)
    ensures
        match owner {
            None => r matches Err(m) && m@ == "NFT not found"@,
            Some(o) => if o@ == caller@ {
                r is Ok
            } else {
                r matches Err(m) && m@ == "Caller is not the NFT owner"@
            },
        },
{
    match owner {
        None => Err("NFT not found".to_string()),
        Some(o) => if o.key_eq(caller) {
            Ok(())
        } else {
            Err("Caller is not the NFT owner".to_string())
        },
    }
}

/// The caller owns the token or reads at least one of its private entries.
#[verifier::loop_isolation(false)]
pub fn caller_is_owner_or_any_reader(
    owner: Option<&PrincipalId>,
    private: &PrivateContentSystem,
    token_id: u128,
    caller: &PrincipalId,
) -> (r: Result<(), String>)
    ensures
        match owner {
            None => r matches Err(m) && m@ == "NFT not found"@,
            Some(o) => if o@ == caller@ || (private@.nft_private.contains_key(token_id) && exists|
                name: Seq<char>,
            |
                #[trigger] private@.nft_private[token_id].entries.contains_key(name)
                    && entry_readers(private@, token_id, name).contains_key(caller@)) {
                r is Ok
            } else {
                r matches Err(m) && m@ == "Caller is not authorized"@
            },
        },
{
    let o = match owner {
        None => {
            return Err("NFT not found".to_string());
        },
        Some(o) => o,
    };
    if o.key_eq(caller) {
        return Ok(());
    }
    match private.nft_private.get(&token_id) {
        Some(record) => {
            let n = record.entries.len();
            let mut i: usize = 0;
            while i < n
                invariant
                    n == record.entries.spec_len(),
                    record.entries.inv(),
                    i <= n,
                    private@.nft_private.contains_key(token_id),
                    record@ == private@.nft_private[token_id],
                    forall|j: int|
                        0 <= j < i ==> !entry_readers(
                            private@,
                            token_id,
                            #[trigger] record.entries.spec_key_at(j),
                        ).contains_key(caller@),
                decreases n - i,
            {
                proof {
                    record.entries.lemma_positions();
                }
                let e = record.entries.value_at(i);
                let readers = resolve_readers(&e.readers, &record.default_readers);
                proof {
                    assert(record@.entries.contains_key(record.entries.spec_key_at(i as int)));
                    assert(readers@ == entry_readers(private@, token_id, record.entries.spec_key_at(i as int)));
                }
                if readers.contains_key(caller) {
                    proof {
                        assert(record@.entries.contains_key(record.entries.spec_key_at(i as int)));
                    }
                    return Ok(());
                }
                i += 1;
            }
            proof {
                record.entries.lemma_positions();
                assert forall|name: Seq<char>| #[trigger]
                    private@.nft_private[token_id].entries.contains_key(name) implies !entry_readers(
                    private@,
                    token_id,
                    name,
                ).contains_key(caller@) by {
                    let j = record.entries.spec_index_of(name);
                    assert(record.entries.spec_key_at(j) == name);
                }
            }
        },
        None => {},
    }
    Err("Caller is not authorized".to_string())
}

/// The caller owns the token or reads its private entry `entry_name`.
pub fn caller_is_owner_or_entry_reader(
    owner: Option<&PrincipalId>,
    private: &PrivateContentSystem,
    token_id: u128,
    entry_name: &str,
    caller: &PrincipalId,
) -> (r: Result<(), String>)
    ensures
        match owner {
            None => r matches Err(m) && m@ == "NFT not found"@,
            Some(o) => if o@ == caller@ {
                r is Ok
            } else if !private@.nft_private.contains_key(token_id) {
                r matches Err(m) && m@ == "Private content not found"@
            } else if !private@.nft_private[token_id].entries.contains_key(entry_name@) {
                r matches Err(m) && m@ == "Entry not found"@
            } else if entry_readers(private@, token_id, entry_name@).contains_key(caller@) {
                r is Ok
            } else {
                r matches Err(m) && m@ == "Caller is not authorized for this entry"@
            },
        },
{
    let o = match owner {
        None => {
            return Err("NFT not found".to_string());
        },
        Some(o) => o,
    };
    if o.key_eq(caller) {
        return Ok(());
    }
    let record = match private.nft_private.get(&token_id) {
        Some(record) => record,
        None => {
            return Err("Private content not found".to_string());
        },
    };
    let key = entry_name.to_owned();
    let entry = match record.entries.get(&key) {
        Some(entry) => entry,
        None => {
            return Err("Entry not found".to_string());
        },
    };
    let readers = resolve_readers(&entry.readers, &record.default_readers);
    if readers.contains_key(caller) {
        return Ok(());
    }
    Err("Caller is not authorized for this entry".to_string())
}

/// Whether the content of the private entry `entry_name` can be handed to
/// the caller: active content to anyone who passed the reader guard, content
/// pending re-encryption to the owner only, content not yet uploaded or
/// minted to nobody.
pub fn entry_content_is_accessible(
    owner: Option<&PrincipalId>,
    private: &PrivateContentSystem,
    token_id: u128,
    entry_name: &str,
    caller: &PrincipalId,
) -> (r: Result<(), String>)
    ensures
        match owner {
            None => r matches Err(m) && m@ == "NFT not found"@,
            Some(o) => if !private@.nft_private.contains_key(token_id) {
                r matches Err(m) && m@ == "Private content not found"@
            } else if !private@.nft_private[token_id].entries.contains_key(entry_name@) {
                r matches Err(m) && m@ == "Entry not found"@
            } else {
                match private@.nft_private[token_id].entries[entry_name@].status {
                    PrivateContentStatus::Active => r is Ok,
                    PrivateContentStatus::PendingUpload => r matches Err(m) && m@
                        == "Content is pending upload"@,
                    PrivateContentStatus::PendingMinting => r matches Err(m) && m@
                        == "Content is pending minting"@,
                    PrivateContentStatus::PendingReencryption => if o@ == caller@ {
                        r is Ok
                    } else {
                        r matches Err(m) && m@ == "Content is pending re-encryption"@
                    },
                }
            },
        },
{
    let o = match owner {
        None => {
            return Err("NFT not found".to_string());
        },
        Some(o) => o,
    };
    let is_owner = o.key_eq(caller);
    let record = match private.nft_private.get(&token_id) {
        Some(record) => record,
        None => {
            return Err("Private content not found".to_string());
        },
    };
    let key = entry_name.to_owned();
    let entry = match record.entries.get(&key) {
        Some(entry) => entry,
        None => {
            return Err("Entry not found".to_string());
        },
    };
    match entry.status {
        PrivateContentStatus::Active => Ok(()),
        PrivateContentStatus::PendingUpload => Err("Content is pending upload".to_string()),
        PrivateContentStatus::PendingMinting => Err("Content is pending minting".to_string()),
        PrivateContentStatus::PendingReencryption => {
            if is_owner {
                Ok(())
            } else {
                Err("Content is pending re-encryption".to_string())
            }
        },
    }
}

/// Whether the caller may write the private entry `entry_name`: the owner
/// may; a reader may if its resolved rights allow writing.
pub fn has_write_access(
    owner: Option<&PrincipalId>,
    private: &PrivateContentSystem,
    token_id: u128,
    entry_name: &str,
    caller: &PrincipalId,
) -> (b: bool)
    ensures
        b == ((owner matches Some(o) && o@ == caller@) || ({
            &&& private@.nft_private.contains_key(token_id)
            &&& private@.nft_private[token_id].entries.contains_key(entry_name@)
            &&& entry_readers(private@, token_id, entry_name@).contains_key(caller@)
            &&& entry_readers(private@, token_id, entry_name@)[caller@].rights
                != AccessRights::Read
        })),
{
    match owner {
        Some(o) => {
            if o.key_eq(caller) {
                return true;
            }
        },
        None => {},
    }
    match private.nft_private.get(&token_id) {
        Some(record) => {
            let key = entry_name.to_owned();
            match record.entries.get(&key) {
                Some(entry) => {
                    let readers = resolve_readers(&entry.readers, &record.default_readers);
                    match readers.get(caller) {
                        Some(info) => {
                            return info.rights.can_write();
                        },
                        None => {},
                    }
                },
                None => {},
            }
        },
        None => {},
    }
    false
}

/// The identity a vetKey for the private entry `entry_name` is derived
/// for, if the caller may have it: the token must exist and hold the entry;
/// its owner may, and so may its readers unless the owner is re-encrypting
/// the content.
pub fn vetkey_identity_for_entry(
    owner: Option<&PrincipalId>,
    private: &PrivateContentSystem,
    token_id: u128,
    entry_name: &str,
    caller: &PrincipalId,
) -> (r: Result<Vec<u8>, String>)
    ensures
        match owner {
            None => r matches Err(m) && m@ == "NFT not found"@,
            Some(o) => if !private@.nft_private.contains_key(token_id) {
                r matches Err(m) && m@ == private_nft_not_found_message(token_id)
            } else if !private@.nft_private[token_id].entries.contains_key(entry_name@) {
                r matches Err(m) && m@ == private_entry_not_found_message(entry_name@, token_id)
            } else if o@ != caller@ && !entry_readers(private@, token_id, entry_name@).contains_key(
                caller@,
            ) {
                r matches Err(m) && m@ == "The user does not have permission to derive a key"@
            } else if o@ != caller@ && private@.nft_private[token_id].entries[entry_name@].status
                == PrivateContentStatus::PendingReencryption {
                r matches Err(m) && m@ == "Content is currently being re-encrypted by the owner"@
            } else {
                r matches Ok(id) && id@ == private@.nft_private[token_id].entries[entry_name@].canonical_identity
            },
        },
{
    let o = match owner {
        None => {
            return Err("NFT not found".to_string());
        },
        Some(o) => o,
    };
    let entry = private.get_nft_private_entry(token_id, entry_name)?;
    let is_owner = o.key_eq(caller);
    let record = match private.nft_private.get(&token_id) {
        Some(record) => record,
        None => {
            return Err("Private content record not found".to_string());
        },
    };
    let readers = resolve_readers(&entry.readers, &record.default_readers);
    if !is_owner && !readers.contains_key(caller) {
        return Err("The user does not have permission to derive a key".to_string());
    }
    if entry.status == PrivateContentStatus::PendingReencryption && !is_owner {
        return Err("Content is currently being re-encrypted by the owner".to_string());
    }
    Ok(entry.canonical_identity)
}

} // verus!
