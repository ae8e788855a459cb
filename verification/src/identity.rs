//! Identities: the owner of an account and the chain a ledger lives on.

use vstd::prelude::*;

use crate::ordered_map::OrderedKey;

verus! {

/// The owner of an account: the identity a player is known by.
#[derive(Clone, Copy, Debug, PartialEq, Eq, Hash)]
pub enum AccountOwner {
    /// One of the 256 reserved system identities.
    Reserved(u8),
    /// A 32-byte address.
    Address32([u8; 32]),
    /// A 20-byte address.
    Address20([u8; 20]),
}

/// The identity of a chain.
#[derive(Clone, Copy, Debug, PartialEq, Eq, Hash)]
pub struct ChainId(pub [u8; 32]);

/// The number that a sequence of bytes spells in base 256, first byte most
/// significant.
pub open spec fn be_value(bytes: Seq<u8>) -> nat
    decreases bytes.len(),
{
    if bytes.len() == 0 {
        0
    } else {
        be_value(bytes.drop_last()) * 256 + bytes.last() as nat
    }
}

/// Two byte strings of one length that spell the same number are equal.
pub proof fn lemma_be_value_injective(a: Seq<u8>, b: Seq<u8>)
    requires
        a.len() == b.len(),
        be_value(a) == be_value(b),
    ensures
        a == b,
    decreases a.len(),
{
    if a.len() > 0 {
        lemma_be_value_injective(a.drop_last(), b.drop_last());
        assert(a =~= a.drop_last().push(a.last()));
        assert(b =~= b.drop_last().push(b.last()));
    } else {
        assert(a =~= b);
    }
}

/// Of two byte strings of one length that agree before position `at`, the one
/// with the smaller byte at `at` spells the smaller number.
pub proof fn lemma_be_value_first_difference(a: Seq<u8>, b: Seq<u8>, at: int)
    requires
        a.len() == b.len(),
        0 <= at < a.len(),
        a.subrange(0, at) == b.subrange(0, at),
        a[at] < b[at],
    ensures
        be_value(a) < be_value(b),
    decreases a.len(),
{
    if at == a.len() - 1 {
        assert(a.drop_last() =~= a.subrange(0, at));
        assert(b.drop_last() =~= b.subrange(0, at));
    } else {
        assert(a.drop_last().subrange(0, at) =~= a.subrange(0, at));
        assert(b.drop_last().subrange(0, at) =~= b.subrange(0, at));
        lemma_be_value_first_difference(a.drop_last(), b.drop_last(), at);
    }
}

/// Whether two byte strings hold the same bytes.
fn bytes_equal(a: &[u8], b: &[u8]) -> (r: bool)
    requires
        a@.len() == b@.len(),
    ensures
        r == (a@ == b@),
{
    let n = a.len();
    let mut i: usize = 0;
    while i < n
        invariant
            n == a@.len(),
            n == b@.len(),
            0 <= i <= n,
            a@.subrange(0, i as int) == b@.subrange(0, i as int),
        decreases n - i,
    {
        if a[i] != b[i] {
            return false;
        }
        assert(a@.subrange(0, i + 1) =~= a@.subrange(0, i as int).push(a@[i as int]));
        assert(b@.subrange(0, i + 1) =~= b@.subrange(0, i as int).push(b@[i as int]));
        i = i + 1;
    }
    assert(a@ =~= a@.subrange(0, n as int));
    assert(b@ =~= b@.subrange(0, n as int));
    true
}

/// Whether two arrays hold the same bytes.
fn array_equal<const N: usize>(a: &[u8; N], b: &[u8; N]) -> (r: bool)
    ensures
        r == (*a == *b),
{
    let r = bytes_equal(a.as_slice(), b.as_slice());
    proof {
        if a@ == b@ {
            assert(*a =~= *b);
        }
    }
    r
}

/// Whether the first of two byte strings of one length spells the smaller
/// number.
fn bytes_less(a: &[u8], b: &[u8]) -> (r: bool)
    requires
        a@.len() == b@.len(),
    ensures
        r == (be_value(a@) < be_value(b@)),
{
    let n = a.len();
    let mut i: usize = 0;
    while i < n
        invariant
            n == a@.len(),
            n == b@.len(),
            0 <= i <= n,
            a@.subrange(0, i as int) == b@.subrange(0, i as int),
        decreases n - i,
    {
        if a[i] < b[i] {
            proof {
                lemma_be_value_first_difference(a@, b@, i as int);
            }
            return true;
        }
        if a[i] > b[i] {
            proof {
                lemma_be_value_first_difference(b@, a@, i as int);
            }
            return false;
        }
        assert(a@.subrange(0, i + 1) =~= a@.subrange(0, i as int).push(a@[i as int]));
        assert(b@.subrange(0, i + 1) =~= b@.subrange(0, i as int).push(b@[i as int]));
        i = i + 1;
    }
    assert(a@ =~= a@.subrange(0, n as int));
    assert(b@ =~= b@.subrange(0, n as int));
    false
}

impl AccountOwner {
    /// Position of the variant: reserved identities come first, then 32-byte
    /// addresses, then 20-byte addresses.
    pub open spec fn variant_index(&self) -> int {
        match *self {
            AccountOwner::Reserved(_) => 0,
            AccountOwner::Address32(_) => 1,
            AccountOwner::Address20(_) => 2,
        }
    }

    /// The bytes that the identity carries.
    pub open spec fn bytes(&self) -> Seq<u8> {
        match *self {
            AccountOwner::Reserved(b) => seq![b],
            AccountOwner::Address32(bytes) => bytes@,
            AccountOwner::Address20(bytes) => bytes@,
        }
    }

    fn variant_number(&self) -> (n: u8)
        ensures
            n == self.variant_index(),
    {
        match self {
            AccountOwner::Reserved(_) => 0,
            AccountOwner::Address32(_) => 1,
            AccountOwner::Address20(_) => 2,
        }
    }
}

impl OrderedKey for AccountOwner {
    /// Identities are ordered by variant, then by their bytes read as a
    /// number.
    open spec fn rank(&self) -> (int, int) {
        (self.variant_index(), be_value(self.bytes()) as int)
    }

    proof fn lemma_rank_injective(a: &Self, b: &Self) {
        lemma_be_value_injective(a.bytes(), b.bytes());
        match (*a, *b) {
            (AccountOwner::Reserved(x), AccountOwner::Reserved(y)) => {
                assert(seq![x][0] == seq![y][0]);
            },
            (AccountOwner::Address32(x), AccountOwner::Address32(y)) => {
                assert(x =~= y);
            },
            (AccountOwner::Address20(x), AccountOwner::Address20(y)) => {
                assert(x =~= y);
            },
            _ => {},
        }
    }

    fn precedes(&self, other: &Self) -> (r: bool) {
        let mine = self.variant_number();
        let theirs = other.variant_number();
        if mine != theirs {
            return mine < theirs;
        }
        match (self, other) {
            (AccountOwner::Reserved(a), AccountOwner::Reserved(b)) => {
                proof {
                    reveal_with_fuel(be_value, 2);
                    assert(seq![*a].drop_last() =~= Seq::<u8>::empty());
                    assert(seq![*b].drop_last() =~= Seq::<u8>::empty());
                }
                *a < *b
            },
            (AccountOwner::Address32(a), AccountOwner::Address32(b)) => bytes_less(
                a.as_slice(),
                b.as_slice(),
            ),
            (AccountOwner::Address20(a), AccountOwner::Address20(b)) => bytes_less(
                a.as_slice(),
                b.as_slice(),
            ),
            _ => false,
        }
    }

    fn same(&self, other: &Self) -> (r: bool) {
        match self {
            AccountOwner::Reserved(a) => match other {
                AccountOwner::Reserved(b) => *a == *b,
                _ => false,
            },
            AccountOwner::Address32(a) => match other {
                AccountOwner::Address32(b) => array_equal(a, b),
                _ => false,
            },
            AccountOwner::Address20(a) => match other {
                AccountOwner::Address20(b) => array_equal(a, b),
                _ => false,
            },
        }
    }
}

impl ChainId {
    /// Whether this chain is `other`.
    pub fn same(&self, other: &ChainId) -> (r: bool)
        ensures
            r == (*self == *other),
    {
        array_equal(&self.0, &other.0)
    }
}

impl OrderedKey for u64 {
    /// Numbers are ordered by value.
    open spec fn rank(&self) -> (int, int) {
        (0, *self as int)
    }

    proof fn lemma_rank_injective(a: &Self, b: &Self) {
    }

    fn precedes(&self, other: &Self) -> (r: bool) {
        *self < *other
    }

    fn same(&self, other: &Self) -> (r: bool) {
        *self == *other
    }
}

} // verus!
