//! The ICRC-7 queries over the token ledger: owners, balances, token
//! metadata and pages of token ids, with the collection's limits on how
//! much one call may ask for. A request over a limit is refused with the
//! message the canister rejects the call with.

use vstd::prelude::*;
use crate::display::{decimal, decimal_text};
use crate::ledger::{owned_ids, stored_subaccount, text_pairs_view, token_metadata_entries, Account, TokenLedger};
use crate::pagination::{check_take, is_token_page, page_size, take_limit_message, token_page};
use crate::text::{chars_of, push_all, string_from_chars};

verus! {

/// How many items one query may ask for: the collection's limit, or
/// `default_limit` when it has none or when its limit does not fit a `usize`.
pub open spec fn batch_limit(max_query_batch_size: Option<u128>, default_limit: u128) -> int {
    let m = match max_query_batch_size {
        Some(m) => m,
        None => default_limit,
    };
    if m <= usize::MAX {
        m as int
    } else {
        default_limit as int
    }
}

/// The limit named in the refusal: the collection's, or the default.
pub open spec fn named_limit(max_query_batch_size: Option<u128>, default_limit: u128) -> u128 {
    match max_query_batch_size {
        Some(m) => m,
        None => default_limit,
    }
}

/// The message of a query that asks for too many items.
pub open spec fn batch_limit_message(limit: u128) -> Seq<char> {
    "max_query_batch_size exceeded. Limit is "@ + decimal(limit as nat)
        + ". Retry with a smaller batch size."@
}

/// Whether a query may ask for `len` items.
pub fn check_query_batch(len: usize, max_query_batch_size: Option<u128>, default_limit: u128) -> (r: Result<
    (),
    String,
>)
    requires
        default_limit <= usize::MAX,
    ensures
        len > batch_limit(max_query_batch_size, default_limit) ==> (r matches Err(m) && m@
            == batch_limit_message(named_limit(max_query_batch_size, default_limit))),
        len <= batch_limit(max_query_batch_size, default_limit) ==> r is Ok,
{
    let m: u128 = match max_query_batch_size {
        Some(m) => m,
        None => default_limit,
    };
    let limit: u128 = if m <= usize::MAX as u128 {
        m
    } else {
        default_limit
    };
    if len as u128 > limit {
        let mut msg = chars_of("max_query_batch_size exceeded. Limit is ");
        let n = chars_of(decimal_text(m).as_str());
        push_all(&mut msg, &n);
        let tail = chars_of(". Retry with a smaller batch size.");
        push_all(&mut msg, &tail);
        Err(string_from_chars(&msg))
    } else {
        Ok(())
    }
}

/// The owner of each token asked for, `None` for a token that does not
/// exist; refused when too many tokens are asked for.
pub fn icrc7_owner_of(
    ledger: &TokenLedger,
    token_ids: &Vec<u128>,
    max_query_batch_size: Option<u128>,
    default_limit: u128,
) -> (r: Result<Vec<Option<Account>>, String>)
    requires
        default_limit <= usize::MAX,
    ensures
        token_ids@.len() > batch_limit(max_query_batch_size, default_limit) ==> (r matches Err(m) && m@
            == batch_limit_message(named_limit(max_query_batch_size, default_limit))),
        token_ids@.len() <= batch_limit(max_query_batch_size, default_limit) ==> (r matches Ok(o) && o@.len()
            == token_ids@.len() && forall|i: int|
            0 <= i < token_ids@.len() ==> match #[trigger] o@[i] {
                Some(a) => ledger@.contains_key(token_ids@[i]) && a@ == ledger@[token_ids@[i]].owner
                    && stored_subaccount(a.subaccount) == ledger@[token_ids@[i]].owner_subaccount,
                None => !ledger@.contains_key(token_ids@[i]),
            }),
{
    check_query_batch(token_ids.len(), max_query_batch_size, default_limit)?;
    let mut out: Vec<Option<Account>> = Vec::new();
    let mut i: usize = 0;
    while i < token_ids.len()
        invariant
            i <= token_ids@.len(),
            out@.len() == i,
            forall|k: int|
                0 <= k < i ==> match #[trigger] out@[k] {
                    Some(a) => ledger@.contains_key(token_ids@[k]) && a@ == ledger@[token_ids@[k]].owner
                    && stored_subaccount(a.subaccount) == ledger@[token_ids@[k]].owner_subaccount,
                    None => !ledger@.contains_key(token_ids@[k]),
                },
        decreases token_ids@.len() - i,
    {
        out.push(ledger.owner_of(token_ids[i]));
        i += 1;
    }
    Ok(out)
}

/// How many tokens each account holds; refused when too many accounts are
/// asked for.
pub fn icrc7_balance_of(
    ledger: &TokenLedger,
    accounts: &Vec<Account>,
    max_query_batch_size: Option<u128>,
    default_limit: u128,
) -> (r: Result<Vec<u128>, String>)
    requires
        default_limit <= usize::MAX,
    ensures
        accounts@.len() > batch_limit(max_query_batch_size, default_limit) ==> (r matches Err(m) && m@
            == batch_limit_message(named_limit(max_query_batch_size, default_limit))),
        accounts@.len() <= batch_limit(max_query_batch_size, default_limit) ==> (r matches Ok(o) && o@.len()
            == accounts@.len() && forall|i: int|
            0 <= i < accounts@.len() ==> #[trigger] o@[i] == owned_ids(ledger@, accounts@[i]@).len()),
{
    check_query_batch(accounts.len(), max_query_batch_size, default_limit)?;
    let mut out: Vec<u128> = Vec::new();
    let mut i: usize = 0;
    while i < accounts.len()
        invariant
            i <= accounts@.len(),
            out@.len() == i,
            forall|k: int| 0 <= k < i ==> #[trigger] out@[k] == owned_ids(ledger@, accounts@[k]@).len(),
        decreases accounts@.len() - i,
    {
        out.push(ledger.tokens_balance_of(&accounts[i]));
        i += 1;
    }
    Ok(out)
}

/// The metadata of each token asked for, `None` for a token that does not
/// exist; refused when too many tokens are asked for.
pub fn icrc7_token_metadata(
    ledger: &TokenLedger,
    token_ids: &Vec<u128>,
    max_query_batch_size: Option<u128>,
    default_limit: u128,
) -> (r: Result<Vec<Option<Vec<(String, String)>>>, String>)
    requires
        default_limit <= usize::MAX,
    ensures
        token_ids@.len() > batch_limit(max_query_batch_size, default_limit) ==> (r matches Err(m) && m@
            == batch_limit_message(named_limit(max_query_batch_size, default_limit))),
        token_ids@.len() <= batch_limit(max_query_batch_size, default_limit) ==> (r matches Ok(o) && o@.len()
            == token_ids@.len() && forall|i: int|
            0 <= i < token_ids@.len() ==> match #[trigger] o@[i] {
                Some(md) => ledger@.contains_key(token_ids@[i]) && text_pairs_view(md@)
                    == token_metadata_entries(ledger@[token_ids@[i]]),
                None => !ledger@.contains_key(token_ids@[i]),
            }),
{
    check_query_batch(token_ids.len(), max_query_batch_size, default_limit)?;
    let mut out: Vec<Option<Vec<(String, String)>>> = Vec::new();
    let mut i: usize = 0;
    while i < token_ids.len()
        invariant
            i <= token_ids@.len(),
            out@.len() == i,
            forall|k: int|
                0 <= k < i ==> match #[trigger] out@[k] {
                    Some(md) => ledger@.contains_key(token_ids@[k]) && text_pairs_view(md@)
                        == token_metadata_entries(ledger@[token_ids@[k]]),
                    None => !ledger@.contains_key(token_ids@[k]),
                },
        decreases token_ids@.len() - i,
    {
        let md = match ledger.get_token_by_id(token_ids[i]) {
            Some(t) => Some(t.token_metadata()),
            None => None,
        };
        out.push(md);
        i += 1;
    }
    Ok(out)
}

/// A page of the ids of all tokens, in increasing order after `prev`;
/// refused when `take` is over the collection's `max_take_value`.
pub fn icrc7_tokens(
    ledger: &TokenLedger,
    prev: Option<u128>,
    take: Option<u128>,
    max_take_value: u128,
    default_take_value: Option<u128>,
) -> (r: Result<Vec<u128>, String>)
    ensures
        (take matches Some(t) && t > max_take_value) ==> (r matches Err(m) && m@ == take_limit_message(
            max_take_value,
        )),
        !(take matches Some(t) && t > max_take_value) ==> (r matches Ok(page) && exists|ids: Seq<u128>|
            ids.no_duplicates() && ids.to_set() == ledger@.dom() && is_token_page(
                ids,
                match prev {
                    Some(p) => p,
                    None => 0,
                },
                page_size(take, default_take_value),
                page@,
            )),
{
    check_take(take, max_take_value)?;
    let ids = ledger.token_ids();
    Ok(token_page(&ids, prev, take, default_take_value))
}

/// A page of the ids of the tokens `account` holds, in increasing order
/// after `prev`; refused when `take` is over the collection's
/// `max_take_value`.
pub fn icrc7_tokens_of(
    ledger: &TokenLedger,
    account: &Account,
    prev: Option<u128>,
    take: Option<u128>,
    max_take_value: u128,
    default_take_value: Option<u128>,
) -> (r: Result<Vec<u128>, String>)
    ensures
        (take matches Some(t) && t > max_take_value) ==> (r matches Err(m) && m@ == take_limit_message(
            max_take_value,
        )),
        !(take matches Some(t) && t > max_take_value) ==> (r matches Ok(page) && exists|ids: Seq<u128>|
            ids.no_duplicates() && ids.to_set() == owned_ids(ledger@, account@) && is_token_page(
                ids,
                match prev {
                    Some(p) => p,
                    None => 0,
                },
                page_size(take, default_take_value),
                page@,
            )),
{
    check_take(take, max_take_value)?;
    let ids = ledger.tokens_ids_of_account(account);
    Ok(token_page(&ids, prev, take, default_take_value))
}

/// How many tokens the collection holds.
pub fn icrc7_total_supply(ledger: &TokenLedger) -> (n: u128)
    ensures
        n == ledger@.len(),
{
    ledger.total_supply()
}

} // verus!
