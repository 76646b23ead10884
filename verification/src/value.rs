//! Generic ICRC-3 values, as custom metadata holds them, and the space a
//! value takes in a storage canister.

use vstd::prelude::*;
use vstd::utf8::encode_utf8;

verus! {

/// An ICRC-3 value; naturals and integers are those that fit 128 bits, and
/// `Dict` is the map of names to values.
pub enum Icrc3Value {
    Blob(Vec<u8>),
    Text(String),
    Nat(u128),
    Int(i128),
    Array(Vec<Icrc3Value>),
    Dict(Vec<(String, Icrc3Value)>),
}

/// How many bytes the big-endian form of `n` takes: at least one.
pub open spec fn magnitude_bytes(n: nat) -> nat
    decreases n,
{
    if n < 256 {
        1
    } else {
        1 + magnitude_bytes(n / 256)
    }
}

/// The magnitude of an integer.
pub open spec fn magnitude(i: i128) -> nat {
    if i >= 0 {
        i as nat
    } else {
        (-i) as nat
    }
}

/// The space a value takes: the bytes of a blob or of a text's UTF-8 form,
/// the big-endian bytes of a number's magnitude, the sum over the items of
/// an array, and over the entries of a map each key's bytes and its value.
pub open spec fn value_size(v: Icrc3Value) -> nat
    decreases v,
{
    match v {
        Icrc3Value::Blob(b) => b@.len(),
        Icrc3Value::Text(t) => encode_utf8(t@).len(),
        Icrc3Value::Nat(n) => magnitude_bytes(n as nat),
        Icrc3Value::Int(i) => magnitude_bytes(magnitude(i)),
        Icrc3Value::Array(a) => values_size(a@),
        Icrc3Value::Dict(m) => entries_size(m@),
    }
}

/// The space the values take together.
pub open spec fn values_size(s: Seq<Icrc3Value>) -> nat
    decreases s,
{
    if s.len() == 0 {
        0
    } else {
        values_size(s.drop_last()) + value_size(s.last())
    }
}

/// The space the entries take together: each key's bytes and its value.
pub open spec fn entries_size(s: Seq<(String, Icrc3Value)>) -> nat
    decreases s,
{
    if s.len() == 0 {
        0
    } else {
        entries_size(s.drop_last()) + encode_utf8(s.last().0@).len() + value_size(s.last().1)
    }
}

proof fn lemma_values_prefix(s: Seq<Icrc3Value>, k: int)
    requires
        0 <= k <= s.len(),
    ensures
        values_size(s.take(k)) <= values_size(s),
        k < s.len() ==> values_size(s.take(k + 1)) == values_size(s.take(k)) + value_size(s[k]),
    decreases s.len() - k,
{
    if k < s.len() {
        assert(s.take(k + 1).drop_last() =~= s.take(k));
        lemma_values_prefix(s, k + 1);
    } else {
        assert(s.take(k) =~= s);
    }
}

proof fn lemma_entries_prefix(s: Seq<(String, Icrc3Value)>, k: int)
    requires
        0 <= k <= s.len(),
    ensures
        entries_size(s.take(k)) <= entries_size(s),
        k < s.len() ==> entries_size(s.take(k + 1)) == entries_size(s.take(k)) + encode_utf8(s[k].0@).len()
            + value_size(s[k].1),
    decreases s.len() - k,
{
    if k < s.len() {
        assert(s.take(k + 1).drop_last() =~= s.take(k));
        lemma_entries_prefix(s, k + 1);
    } else {
        assert(s.take(k) =~= s);
    }
}

/// `256` to the power `k`.
pub open spec fn pow256(k: nat) -> nat
    decreases k,
{
    if k == 0 {
        1
    } else {
        256 * pow256((k - 1) as nat)
    }
}

proof fn lemma_magnitude_bytes_bound(n: nat, k: nat)
    requires
        k >= 1,
        n < pow256(k),
    ensures
        1 <= magnitude_bytes(n) <= k,
    decreases k,
{
    if n >= 256 {
        assert(k >= 2) by {
            if k == 1 {
                assert(pow256(1) == 256 * pow256(0));
            }
        }
        assert(pow256(k) == 256 * pow256((k - 1) as nat));
        assert(n / 256 < pow256((k - 1) as nat));
        lemma_magnitude_bytes_bound(n / 256, (k - 1) as nat);
    }
}

fn magnitude_bytes_of(n: u128) -> (r: u128)
    ensures
        r == magnitude_bytes(n as nat),
{
    proof {
        reveal_with_fuel(pow256, 17);
        assert(pow256(16) == 0x1_0000_0000_0000_0000_0000_0000_0000_0000nat);
        lemma_magnitude_bytes_bound(n as nat, 16);
    }
    let mut m = n;
    let mut count: u128 = 1;
    while m >= 256
        invariant
            count + magnitude_bytes(m as nat) == 1 + magnitude_bytes(n as nat),
            magnitude_bytes(n as nat) <= 16,
        decreases m,
    {
        assert(magnitude_bytes(m as nat) == 1 + magnitude_bytes((m / 256) as nat));
        m = m / 256;
        count = count + 1;
    }
    count
}

/// The space `value` takes (see `value_size`).
pub fn get_value_size(value: &Icrc3Value) -> (n: u128)
    requires
        value_size(*value) <= u128::MAX,
    ensures
        n == value_size(*value),
    decreases value,
{
    match value {
        Icrc3Value::Blob(b) => b.len() as u128,
        Icrc3Value::Text(t) => {
            let ts = t.as_str();
            assert(ts@ == t@);
            ts.as_bytes().len() as u128
        },
        Icrc3Value::Nat(n) => magnitude_bytes_of(*n),
        Icrc3Value::Int(i) => {
            let m: u128 = if *i >= 0 {
                *i as u128
            } else {
                ((-(*i + 1)) as u128) + 1
            };
            assert(m == magnitude(*i));
            magnitude_bytes_of(m)
        },
        Icrc3Value::Array(a) => {
            let mut sum: u128 = 0;
            let mut k: usize = 0;
            while k < a.len()
                invariant
                    k <= a@.len(),
                    *value == Icrc3Value::Array(*a),
                    values_size(a@) <= u128::MAX,
                    sum == values_size(a@.take(k as int)),
                decreases a@.len() - k,
            {
                proof {
                    lemma_values_prefix(a@, k as int);
                    lemma_values_prefix(a@, k as int + 1);
                }
                proof {
                    assert(*value == Icrc3Value::Array(*a));
                    let ghost inner = (*value)->Array_0;
                    assert(inner == *a);
                    assert(decreases_to!(*value => inner));
                    assert(decreases_to!(inner => inner@));
                    assert(decreases_to!(inner@ => inner@[k as int]));
                }
                let s = get_value_size(&a[k]);
                sum = sum + s;
                k += 1;
            }
            assert(a@.take(k as int) =~= a@);
            assert(value_size(*value) == values_size(a@));
            sum
        },
        Icrc3Value::Dict(m) => {
            let mut sum: u128 = 0;
            let mut k: usize = 0;
            while k < m.len()
                invariant
                    k <= m@.len(),
                    *value == Icrc3Value::Dict(*m),
                    entries_size(m@) <= u128::MAX,
                    sum == entries_size(m@.take(k as int)),
                decreases m@.len() - k,
            {
                proof {
                    lemma_entries_prefix(m@, k as int);
                    lemma_entries_prefix(m@, k as int + 1);
                }
                proof {
                    assert(*value == Icrc3Value::Dict(*m));
                    let ghost inner = (*value)->Dict_0;
                    assert(inner == *m);
                    assert(decreases_to!(*value => inner));
                    assert(decreases_to!(inner => inner@));
                    assert(decreases_to!(inner@ => inner@[k as int]));
                    assert(decreases_to!(inner@[k as int] => inner@[k as int].1));
                }
                let key = m[k].0.as_str();
                assert(key@ == m@[k as int].0@);
                let key_len = key.as_bytes().len() as u128;
                let s = get_value_size(&m[k].1);
                sum = sum + key_len + s;
                k += 1;
            }
            assert(m@.take(k as int) =~= m@);
            assert(value_size(*value) == entries_size(m@));
            sum
        },
    }
}

} // verus!
