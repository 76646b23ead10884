//! Principals, held as their significant bytes (at most 29 of them).

use vstd::prelude::*;
use crate::keyed::{DeepCopy, MapKey};

verus! {

/// The most significant bytes a principal can have.
pub const MAX_PRINCIPAL_BYTES: usize = 29;

/// A principal, held as its significant bytes.
pub struct PrincipalId {
    bytes: Vec<u8>,
}

impl View for PrincipalId {
    type V = Seq<u8>;

    closed spec fn view(&self) -> Seq<u8> {
        self.bytes@
    }
}

/// The textual form of the principal with the given bytes (base32 of a CRC32
/// checksum followed by the bytes, lower case, in dash-separated groups of five).
pub uninterp spec fn principal_text(bytes: Seq<u8>) -> Seq<char>;

/// `candid::Principal::to_text`: the principal's textual form.
#[verifier::external_body]
fn principal_bytes_to_text(bytes: &Vec<u8>) -> (t: String)
    requires
        bytes@.len() <= MAX_PRINCIPAL_BYTES,
    ensures
        t@ == principal_text(bytes@),
{
    candid::Principal::from_slice(bytes.as_slice()).to_text()
}

/// Whether two byte sequences are equal, compared byte by byte.
pub fn bytes_equal(a: &[u8], b: &[u8]) -> (r: bool)
    ensures
        r == (a@ == b@),
{
    if a.len() != b.len() {
        return false;
    }
    let mut i: usize = 0;
    while i < a.len()
        invariant
            a@.len() == b@.len(),
            i <= a@.len(),
            forall|j: int| 0 <= j < i ==> a@[j] == b@[j],
        decreases a@.len() - i,
    {
        if a[i] != b[i] {
            return false;
        }
        i += 1;
    }
    assert(a@ =~= b@);
    true
}

impl PrincipalId {
    #[verifier::type_invariant]
    closed spec fn inv(&self) -> bool {
        self.bytes@.len() <= MAX_PRINCIPAL_BYTES
    }

    /// The principal with the given significant bytes, if there are at most 29 of them.
    pub fn from_bytes(bytes: Vec<u8>) -> (p: Option<PrincipalId>)
        ensures
            match p {
                Some(p) => p@ == bytes@ && bytes@.len() <= MAX_PRINCIPAL_BYTES,
                None => bytes@.len() > MAX_PRINCIPAL_BYTES,
            },
    {
        if bytes.len() <= MAX_PRINCIPAL_BYTES {
            Some(PrincipalId { bytes })
        } else {
            None
        }
    }

    /// The management canister's principal, `aaaaa-aa`, which has no bytes.
    pub fn management() -> (p: PrincipalId)
        ensures
            p@ == Seq::<u8>::empty(),
    {
        PrincipalId { bytes: Vec::new() }
    }

    /// The principal's significant bytes.
    pub fn as_bytes(&self) -> (b: &[u8])
        ensures
            b@ == self@,
    {
        self.bytes.as_slice()
    }

    /// Every principal has at most 29 significant bytes.
    pub fn len(&self) -> (n: usize)
        ensures
            n == self@.len(),
            n <= MAX_PRINCIPAL_BYTES,
    {
        proof {
            use_type_invariant(self);
        }
        self.bytes.len()
    }

    /// The principal's textual form.
    pub fn to_text(&self) -> (t: String)
        ensures
            t@ == principal_text(self@),
    {
        proof {
            use_type_invariant(self);
        }
        principal_bytes_to_text(&self.bytes)
    }
}

impl MapKey for PrincipalId {
    fn key_eq(&self, other: &Self) -> (b: bool) {
        bytes_equal(self.bytes.as_slice(), other.bytes.as_slice())
    }

    fn key_copy(&self) -> (c: Self) {
        proof {
            use_type_invariant(self);
        }
        PrincipalId { bytes: vstd::slice::slice_to_vec(self.bytes.as_slice()) }
    }
}

impl DeepCopy for PrincipalId {
    fn deep_copy(&self) -> (c: Self) {
        self.key_copy()
    }
}

/// The order of principals: fewer significant bytes first, then byte by byte.
pub open spec fn principal_lt(a: Seq<u8>, b: Seq<u8>) -> bool {
    a.len() < b.len() || (a.len() == b.len() && bytes_lt(a, b))
}

/// Lexicographic order on byte sequences of equal length.
pub open spec fn bytes_lt(a: Seq<u8>, b: Seq<u8>) -> bool
    decreases a.len(),
{
    if a.len() == 0 || b.len() == 0 {
        false
    } else if a[0] != b[0] {
        a[0] < b[0]
    } else {
        bytes_lt(a.subrange(1, a.len() as int), b.subrange(1, b.len() as int))
    }
}

/// The principal order is a strict total order.
pub proof fn lemma_principal_order(a: Seq<u8>, b: Seq<u8>, c: Seq<u8>)
    ensures
        !principal_lt(a, a),
        principal_lt(a, b) ==> !principal_lt(b, a),
        principal_lt(a, b) && principal_lt(b, c) ==> principal_lt(a, c),
        a != b ==> principal_lt(a, b) || principal_lt(b, a),
{
    lemma_bytes_lt(a, b, c);
    lemma_bytes_lt(a, a, a);
    lemma_bytes_lt(b, a, c);
}

proof fn lemma_bytes_lt(a: Seq<u8>, b: Seq<u8>, c: Seq<u8>)
    ensures
        !bytes_lt(a, a),
        bytes_lt(a, b) ==> !bytes_lt(b, a),
        bytes_lt(a, b) && bytes_lt(b, c) ==> bytes_lt(a, c),
        a.len() == b.len() && a != b ==> bytes_lt(a, b) || bytes_lt(b, a),
    decreases a.len(),
{
    if a.len() > 0 && b.len() > 0 && c.len() > 0 {
        lemma_bytes_lt(
            a.subrange(1, a.len() as int),
            b.subrange(1, b.len() as int),
            c.subrange(1, c.len() as int),
        );
    } else if a.len() > 0 && b.len() > 0 {
        lemma_bytes_lt(
            a.subrange(1, a.len() as int),
            b.subrange(1, b.len() as int),
            a.subrange(1, a.len() as int),
        );
    } else if a.len() > 0 {
        lemma_bytes_lt(
            a.subrange(1, a.len() as int),
            a.subrange(1, a.len() as int),
            a.subrange(1, a.len() as int),
        );
    }
    if a.len() == b.len() && a != b && a.len() > 0 && a[0] == b[0] {
        assert(a.subrange(1, a.len() as int) != b.subrange(1, b.len() as int)) by {
            if a.subrange(1, a.len() as int) == b.subrange(1, b.len() as int) {
                assert(a =~= b) by {
                    assert forall|i: int| 0 <= i < a.len() implies a[i] == b[i] by {
                        if i > 0 {
                            assert(a[i] == a.subrange(1, a.len() as int)[i - 1]);
                            assert(b[i] == b.subrange(1, b.len() as int)[i - 1]);
                        }
                    }
                }
            }
        }
    }
    if a.len() == b.len() && a != b && a.len() == 0 {
        assert(a =~= b);
    }
}

/// Whether `a` comes before `b` in the principal order.
pub fn principal_less(a: &PrincipalId, b: &PrincipalId) -> (r: bool)
    ensures
        r == principal_lt(a@, b@),
{
    let x = a.as_bytes();
    let y = b.as_bytes();
    if x.len() != y.len() {
        return x.len() < y.len();
    }
    let mut i: usize = 0;
    assert(x@.subrange(0, x@.len() as int) =~= x@);
    assert(y@.subrange(0, y@.len() as int) =~= y@);
    while i < x.len()
        invariant
            x@.len() == y@.len(),
            i <= x@.len(),
            x@ == a@,
            y@ == b@,
            bytes_lt(x@, y@) == bytes_lt(
                x@.subrange(i as int, x@.len() as int),
                y@.subrange(i as int, y@.len() as int),
            ),
        decreases x@.len() - i,
    {
        let ghost xs = x@.subrange(i as int, x@.len() as int);
        let ghost ys = y@.subrange(i as int, y@.len() as int);
        assert(xs.subrange(1, xs.len() as int) =~= x@.subrange(i + 1, x@.len() as int));
        assert(ys.subrange(1, ys.len() as int) =~= y@.subrange(i + 1, y@.len() as int));
        if x[i] != y[i] {
            return x[i] < y[i];
        }
        i += 1;
    }
    false
}

} // verus!
