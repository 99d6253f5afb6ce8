use vstd::prelude::*;

verus! {

/// A 32-byte identifier naming one record in the remote ledger's account
/// space.  The all-zero key is the distinguished sentinel that terminates
/// linked chains of accounts.
pub type AccountKey = [u8; 32];

/// A 32-byte value in one-to-one byte correspondence with an account key;
/// the pending-state store keys its records by it.  Conversion between the
/// two is a pure byte reinterpretation.
pub type PriceIdentifier = [u8; 32];

/// The sentinel key: all 32 bytes are zero.
pub open spec fn is_sentinel(k: AccountKey) -> bool {
    forall|i: int| 0 <= i < 32 ==> k@[i] == 0
}

/// Lexicographic byte order on keys: some first index differs and decides.
pub open spec fn key_lt(a: AccountKey, b: AccountKey) -> bool {
    exists|i: int|
        0 <= i < 32 && a@[i] < b@[i] && (forall|j: int| 0 <= j < i ==> a@[j] == b@[j])
}

pub fn key_eq(a: &AccountKey, b: &AccountKey) -> (r: bool)
    ensures
        r == (a@ == b@),
        r == (*a == *b),
{
    let mut i: usize = 0;
    while i < 32
        invariant
            0 <= i <= 32,
            forall|j: int| 0 <= j < i ==> a@[j] == b@[j],
        decreases 32 - i,
    {
        if a[i] != b[i] {
            assert(a@ != b@);
            proof {
                vstd::array::axiom_array_ext_equal(*a, *b);
            }
            return false;
        }
        i = i + 1;
    }
    proof {
        assert(a@ =~= b@);
        vstd::array::axiom_array_ext_equal(*a, *b);
    }
    true
}

pub fn key_is_sentinel(k: &AccountKey) -> (r: bool)
    ensures
        r == is_sentinel(*k),
{
    let mut i: usize = 0;
    while i < 32
        invariant
            0 <= i <= 32,
            forall|j: int| 0 <= j < i ==> k@[j] == 0,
        decreases 32 - i,
    {
        if k[i] != 0 {
            return false;
        }
        i = i + 1;
    }
    true
}

/// Decides the lexicographic byte order between two keys.
pub fn key_lt_exec(a: &AccountKey, b: &AccountKey) -> (r: bool)
    ensures
        r == key_lt(*a, *b),
{
    let mut i: usize = 0;
    while i < 32
        invariant
            0 <= i <= 32,
            forall|j: int| 0 <= j < i ==> a@[j] == b@[j],
        decreases 32 - i,
    {
        if a[i] < b[i] {
            return true;
        }
        if a[i] > b[i] {
            assert(forall|x: int|
                0 <= x < 32 && a@[x] < b@[x] ==> !(forall|j: int| 0 <= j < x ==> a@[j] == b@[j]))
                by {
                assert(a@[i as int] > b@[i as int]);
            };
            return false;
        }
        i = i + 1;
    }
    assert(a@ =~= b@);
    false
}

/// Whether a key sequence holds pairwise distinct keys.
pub open spec fn distinct_seq(s: Seq<AccountKey>) -> bool {
    forall|i: int, j: int| 0 <= i < j < s.len() ==> s[i] != s[j]
}

pub fn keys_contain(v: &Vec<AccountKey>, k: &AccountKey) -> (r: bool)
    ensures
        r == v@.contains(*k),
{
    let mut i: usize = 0;
    while i < v.len()
        invariant
            0 <= i <= v@.len(),
            forall|j: int| 0 <= j < i ==> v@[j] != *k,
        decreases v@.len() - i,
    {
        if key_eq(&v[i], k) {
            return true;
        }
        i = i + 1;
    }
    false
}

/// A price identifier names the same 32 bytes as the account key.
pub fn key_to_identifier(k: &AccountKey) -> (r: PriceIdentifier)
    ensures
        r == *k,
{
    *k
}

/// An account key names the same 32 bytes as the price identifier.
pub fn identifier_to_key(id: &PriceIdentifier) -> (r: AccountKey)
    ensures
        r == *id,
{
    *id
}

/// The order `key_lt` is irreflexive, total and transitive; these facts let
/// sorted sequences of keys behave as expected.
pub proof fn lemma_key_order(a: AccountKey, b: AccountKey, c: AccountKey)
    ensures
        !key_lt(a, a),
        a@ != b@ ==> (key_lt(a, b) <==> !key_lt(b, a)),
        key_lt(a, b) && key_lt(b, c) ==> key_lt(a, c),
{
    if key_lt(a, a) {
        let i = choose|i: int|
            0 <= i < 32 && a@[i] < a@[i] && (forall|j: int| 0 <= j < i ==> a@[j] == a@[j]);
        assert(false);
    }
    if a@ != b@ {
        assert(a@.len() == 32 && b@.len() == 32);
        if !key_lt(a, b) && !key_lt(b, a) {
            assert forall|i: int| 0 <= i < 32 implies a@[i] == b@[i] by {
                lemma_agree_up_to(a, b, i);
            }
            assert(a@ =~= b@);
        }
        if key_lt(a, b) && key_lt(b, a) {
            let i = choose|i: int|
                0 <= i < 32 && a@[i] < b@[i] && (forall|j: int| 0 <= j < i ==> a@[j] == b@[j]);
            let k = choose|k: int|
                0 <= k < 32 && b@[k] < a@[k] && (forall|j: int| 0 <= j < k ==> b@[j] == a@[j]);
            assert(false);
        }
    }
    if key_lt(a, b) && key_lt(b, c) {
        let i = choose|i: int|
            0 <= i < 32 && a@[i] < b@[i] && (forall|j: int| 0 <= j < i ==> a@[j] == b@[j]);
        let k = choose|k: int|
            0 <= k < 32 && b@[k] < c@[k] && (forall|j: int| 0 <= j < k ==> b@[j] == c@[j]);
        let m = if i <= k { i } else { k };
        assert(a@[m] < c@[m] && (forall|j: int| 0 <= j < m ==> a@[j] == c@[j]));
    }
}

/// Helper: if neither key is below the other, they agree at every index
/// (shown by strong induction on the index).
proof fn lemma_agree_up_to(a: AccountKey, b: AccountKey, i: int)
    requires
        !key_lt(a, b),
        !key_lt(b, a),
        0 <= i < 32,
    ensures
        a@[i] == b@[i],
    decreases i,
{
    assert forall|j: int| 0 <= j < i implies a@[j] == b@[j] by {
        lemma_agree_up_to(a, b, j);
    }
    if a@[i] < b@[i] {
        assert(key_lt(a, b));
    }
    if b@[i] < a@[i] {
        assert(key_lt(b, a));
    }
}

} // verus!
