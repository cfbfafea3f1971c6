//! Identifiers the gatekeeper works with: users and appointments.
//!
//! Both are opaque byte strings; equality is by bytes.

use vstd::prelude::*;

verus! {

/// Compares two byte vectors for equality.
pub fn bytes_eq(a: &Vec<u8>, b: &Vec<u8>) -> (r: bool)
    ensures
        r == (a@ == b@),
{
    if a.len() != b.len() {
        return false;
    }
    let mut i: usize = 0;
    while i < a.len()
        invariant
            i <= a@.len(),
            a@.len() == b@.len(),
            forall|j: int| 0 <= j < i ==> a@[j] == b@[j],
        decreases a@.len() - i,
    {
        if a[i] != b[i] {
            return false;
        }
        i += 1;
    }
    proof {
        assert(a@ =~= b@);
    }
    true
}

/// Copies a byte vector.
pub fn clone_bytes(a: &Vec<u8>) -> (r: Vec<u8>)
    ensures
        r@ == a@,
{
    let mut r: Vec<u8> = Vec::new();
    let mut i: usize = 0;
    while i < a.len()
        invariant
            i <= a@.len(),
            r@ =~= a@.take(i as int),
        decreases a@.len() - i,
    {
        r.push(a[i]);
        i += 1;
    }
    proof {
        assert(a@.take(a@.len() as int) =~= a@);
    }
    r
}

/// A user identifier: the user's compressed public key, held as its 33-byte
/// serialization. Equality and hashing are by bytes.
#[derive(Debug, PartialEq, Eq, Hash)]
pub struct UserId(pub Vec<u8>);

impl View for UserId {
    type V = Seq<u8>;

    open spec fn view(&self) -> Seq<u8> {
        self.0@
    }
}

impl Clone for UserId {
    fn clone(&self) -> (r: Self)
        ensures
            r@ == self@,
    {
        UserId(clone_bytes(&self.0))
    }
}

impl UserId {
    /// Byte-wise equality test usable from verified code.
    pub fn key_eq(&self, other: &UserId) -> (r: bool)
        ensures
            r == (self@ == other@),
    {
        bytes_eq(&self.0, &other.0)
    }
}

/// A 16-byte appointment identifier, assigned outside the gatekeeper.
/// Equality and hashing are by bytes.
#[derive(Debug, PartialEq, Eq, Hash)]
pub struct UUID(pub Vec<u8>);

impl View for UUID {
    type V = Seq<u8>;

    open spec fn view(&self) -> Seq<u8> {
        self.0@
    }
}

impl Clone for UUID {
    fn clone(&self) -> (r: Self)
        ensures
            r@ == self@,
    {
        UUID(clone_bytes(&self.0))
    }
}

impl UUID {
    /// Byte-wise equality test usable from verified code.
    pub fn key_eq(&self, other: &UUID) -> (r: bool)
        ensures
            r == (self@ == other@),
    {
        bytes_eq(&self.0, &other.0)
    }
}

} // verus!
