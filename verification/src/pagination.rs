//! Pages of token ids, as the ICRC-7 token listings hand them out: in
//! increasing order, after a given id, at most so many.

use vstd::prelude::*;
use crate::display::{decimal, decimal_text};
use crate::text::{chars_of, push_all, string_from_chars};

verus! {

broadcast use vstd::string::group_string_axioms;

/// How many token ids a page holds when the request and the collection set
/// no number.
pub const DEFAULT_TAKE_VALUE: usize = 100;

/// `s` never decreases.
pub open spec fn nondecreasing(s: Seq<u128>) -> bool {
    forall|i: int, j: int| 0 <= i < j < s.len() ==> #[trigger] s[i] <= #[trigger] s[j]
}

/// How many ids a page holds: the request's number, else the collection's
/// default, else `DEFAULT_TAKE_VALUE`; a number that does not fit a `usize`
/// counts as `DEFAULT_TAKE_VALUE`.
pub open spec fn page_size(take: Option<u128>, default_take_value: Option<u128>) -> int {
    let t = match take {
        Some(t) => t,
        None => match default_take_value {
            Some(d) => d,
            None => DEFAULT_TAKE_VALUE as u128,
        },
    };
    if t <= usize::MAX {
        t as int
    } else {
        DEFAULT_TAKE_VALUE as int
    }
}

/// `r` is the page of the ids `ids` after `prev`, holding at most `size` ids:
/// the ids sorted, from the first one greater than `prev`.
pub open spec fn is_token_page(ids: Seq<u128>, prev: u128, size: int, r: Seq<u128>) -> bool {
    exists|s: Seq<u128>, pos: int|
        #![trigger nondecreasing(s), s.subrange(pos, s.len() as int)]
        nondecreasing(s) && s.to_multiset() == ids.to_multiset() && 0 <= pos <= s.len() && (forall|
            j: int,
        |
            0 <= j < pos ==> #[trigger] s[j] <= prev) && (pos < s.len() ==> s[pos] > prev) && r
            == s.subrange(
            pos,
            if pos + size < s.len() {
                pos + size
            } else {
                s.len() as int
            },
        )
}

/// `ids` in increasing order.
fn sort_ids(ids: &Vec<u128>) -> (s: Vec<u128>)
    ensures
        nondecreasing(s@),
        s@.to_multiset() == ids@.to_multiset(),
{
    broadcast use vstd::seq_lib::group_to_multiset_ensures;

    let mut out: Vec<u128> = Vec::new();
    let mut i: usize = 0;
    assert(ids@.take(0) =~= Seq::<u128>::empty());
    while i < ids.len()
        invariant
            i <= ids@.len(),
            nondecreasing(out@),
            out@.to_multiset() == ids@.take(i as int).to_multiset(),
        decreases ids@.len() - i,
    {
        let x = ids[i];
        let mut pos: usize = 0;
        while pos < out.len() && out[pos] <= x
            invariant
                pos <= out@.len(),
                forall|j: int| 0 <= j < pos ==> out@[j] <= x,
            decreases out@.len() - pos,
        {
            pos += 1;
        }
        let ghost before = out@;
        out.insert(pos, x);
        proof {
            vstd::seq_lib::to_multiset_insert(before, pos as int, x);
            assert(ids@.take(i + 1) =~= ids@.take(i as int).push(x));
            vstd::seq_lib::to_multiset_build(ids@.take(i as int), x);
            before.insert_ensures(pos as int, x);
            assert forall|a: int, b: int| 0 <= a < b < out@.len() implies #[trigger] out@[a] <= #[trigger] out@[b] by {
                if a < pos && b == pos {
                } else if a < pos && b > pos {
                    assert(out@[b] == before[b - 1]);
                } else if a == pos && b > pos {
                    assert(out@[b] == before[b - 1]);
                    assert(before[pos as int] > x);
                } else if a > pos {
                    assert(out@[a] == before[a - 1]);
                    assert(out@[b] == before[b - 1]);
                }
            }
        }
        i += 1;
    }
    assert(ids@.take(ids@.len() as int) =~= ids@);
    out
}

/// The page of token ids after `prev` (or from the start), holding at most
/// `take` ids (or the collection's `default_take_value`, or
/// `DEFAULT_TAKE_VALUE`).
pub fn token_page(
    ids: &Vec<u128>,
    prev: Option<u128>,
    take: Option<u128>,
    default_take_value: Option<u128>,
) -> (r: Vec<u128>)
    ensures
        is_token_page(
            ids@,
            match prev {
                Some(p) => p,
                None => 0,
            },
            page_size(take, default_take_value),
            r@,
        ),
{
    let prev: u128 = match prev {
        Some(p) => p,
        None => 0,
    };
    let t: u128 = match take {
        Some(t) => t,
        None => match default_take_value {
            Some(d) => d,
            None => DEFAULT_TAKE_VALUE as u128,
        },
    };
    let size: usize = if t <= usize::MAX as u128 {
        t as usize
    } else {
        DEFAULT_TAKE_VALUE
    };
    let s = sort_ids(ids);
    let mut pos: usize = 0;
    while pos < s.len() && s[pos] <= prev
        invariant
            pos <= s@.len(),
            forall|j: int| 0 <= j < pos ==> s@[j] <= prev,
        decreases s@.len() - pos,
    {
        pos += 1;
    }
    let end = if size < s.len() - pos {
        pos + size
    } else {
        s.len()
    };
    let mut r: Vec<u128> = Vec::new();
    let mut k: usize = pos;
    while k < end
        invariant
            pos <= k <= end,
            end <= s@.len(),
            r@ == s@.subrange(pos as int, k as int),
        decreases end - k,
    {
        r.push(s[k]);
        assert(r@ =~= s@.subrange(pos as int, k + 1));
        k += 1;
    }
    proof {
        assert(nondecreasing(s@));
        assert(s@.subrange(pos as int, s@.len() as int) == s@.subrange(pos as int, s@.len() as int));
        assert(size == page_size(take, default_take_value));
        assert(r@ == s@.subrange(
            pos as int,
            if pos + size < s@.len() {
                pos + size
            } else {
                s@.len() as int
            },
        ));
    }
    r
}

/// The message of a request for more ids than the collection allows.
pub open spec fn take_limit_message(max_take_value: u128) -> Seq<char> {
    "max_take_value exceeded. Limit is "@ + decimal(max_take_value as nat)
        + ". Retry with a smaller take value."@
}

/// Whether a listing may hand out `take` ids, the collection allowing at
/// most `max_take_value`.
pub fn check_take(take: Option<u128>, max_take_value: u128) -> (r: Result<(), String>)
    ensures
        match take {
            Some(t) => if t > max_take_value {
                r matches Err(m) && m@ == take_limit_message(max_take_value)
            } else {
                r is Ok
            },
            None => r is Ok,
        },
{
    match take {
        Some(t) => if t > max_take_value {
            let mut m = chars_of("max_take_value exceeded. Limit is ");
            let n = chars_of(decimal_text(max_take_value).as_str());
            push_all(&mut m, &n);
            let tail = chars_of(". Retry with a smaller take value.");
            push_all(&mut m, &tail);
            Err(string_from_chars(&m))
        } else {
            Ok(())
        },
        None => Ok(()),
    }
}

} // verus!
