//! The order of page keys: by the bytes of the account key first, as in a
//! dictionary, then by the page number. The pages of one account so stand
//! together, in the order of their numbers.

use crate::accounts_store::schema::s0::AccountStorageKey;
use vstd::prelude::*;

verus! {

/// Whether `a` stands before `b` in the order of a dictionary: at the first
/// place where they differ `a` has the lower byte, or `a` ends there and `b`
/// goes on.
pub open spec fn bytes_before(a: Seq<u8>, b: Seq<u8>) -> bool
    decreases a.len(),
{
    if b.len() == 0 {
        false
    } else if a.len() == 0 {
        true
    } else if a[0] != b[0] {
        a[0] < b[0]
    } else {
        bytes_before(a.skip(1), b.skip(1))
    }
}

/// Whether the page key `a` stands before the page key `b`.
pub open spec fn key_before(a: (Seq<u8>, u16), b: (Seq<u8>, u16)) -> bool {
    bytes_before(a.0, b.0) || (a.0 == b.0 && a.1 < b.1)
}

/// Nothing stands before itself.
pub proof fn lemma_bytes_before_irreflexive(a: Seq<u8>)
    ensures
        !bytes_before(a, a),
    decreases a.len(),
{
    if a.len() > 0 {
        lemma_bytes_before_irreflexive(a.skip(1));
    }
}

/// What stands before something that stands before a third stands before
/// the third.
pub proof fn lemma_bytes_before_transitive(a: Seq<u8>, b: Seq<u8>, c: Seq<u8>)
    requires
        bytes_before(a, b),
        bytes_before(b, c),
    ensures
        bytes_before(a, c),
    decreases a.len(),
{
    if a.len() > 0 && a[0] == b[0] && b[0] == c[0] {
        lemma_bytes_before_transitive(a.skip(1), b.skip(1), c.skip(1));
    }
}

/// No page key stands before itself, and the order of page keys is
/// transitive.
pub proof fn lemma_key_order(a: (Seq<u8>, u16), b: (Seq<u8>, u16), c: (Seq<u8>, u16))
    ensures
        !key_before(a, a),
        key_before(a, b) && key_before(b, c) ==> key_before(a, c),
{
    lemma_bytes_before_irreflexive(a.0);
    if key_before(a, b) && key_before(b, c) {
        if bytes_before(a.0, b.0) && bytes_before(b.0, c.0) {
            lemma_bytes_before_transitive(a.0, b.0, c.0);
        }
    }
}

/// Where one thing stands with respect to another.
#[derive(Clone, Copy, Debug, PartialEq, Eq, Structural)]
pub enum Place {
    Before,
    Same,
    After,
}

/// Where `a` stands with respect to `b` in the order of a dictionary.
pub fn place_bytes(a: &[u8], b: &[u8]) -> (place: Place)
    ensures
        match place {
            Place::Before => bytes_before(a@, b@),
            Place::Same => a@ == b@,
            Place::After => bytes_before(b@, a@),
        },
{
    let mut i: usize = 0;
    assert(a@.skip(0) =~= a@ && b@.skip(0) =~= b@);
    while i < a.len() && i < b.len()
        invariant
            i <= a@.len(),
            i <= b@.len(),
            a@.take(i as int) == b@.take(i as int),
            bytes_before(a@, b@) == bytes_before(a@.skip(i as int), b@.skip(i as int)),
            bytes_before(b@, a@) == bytes_before(b@.skip(i as int), a@.skip(i as int)),
        decreases a@.len() - i,
    {
        let x: u8 = a[i];
        let y: u8 = b[i];
        proof {
            assert(a@.skip(i as int).skip(1) =~= a@.skip(i + 1));
            assert(b@.skip(i as int).skip(1) =~= b@.skip(i + 1));
        }
        if x < y {
            return Place::Before;
        }
        if x > y {
            return Place::After;
        }
        i = i + 1;
    }
    if i < b.len() {
        Place::Before
    } else if i < a.len() {
        Place::After
    } else {
        Place::Same
    }
}

/// Where the page key `a` stands with respect to the page key `b`.
pub fn place_key(a: &AccountStorageKey, b: &AccountStorageKey) -> (place: Place)
    ensures
        match place {
            Place::Before => key_before(a@, b@),
            Place::Same => a@ == b@,
            Place::After => key_before(b@, a@),
        },
{
    match place_bytes(a.account_key.as_slice(), b.account_key.as_slice()) {
        Place::Before => Place::Before,
        Place::After => Place::After,
        Place::Same => if a.page_num < b.page_num {
            Place::Before
        } else if a.page_num > b.page_num {
            Place::After
        } else {
            Place::Same
        },
    }
}

} // verus!
