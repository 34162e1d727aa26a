use vstd::prelude::*;

verus! {

/// A 64-bit opaque identifier for struct entries.  Values produced by the
/// digest function occupy only the low 40 bits (a CRC-32 checksum plus a
/// string-length byte); raw construction admits any 64-bit value.
#[derive(Clone, Copy, Debug, Hash, PartialEq, Eq, Structural)]
pub struct HashKey {
    pub value: u64,
}

/// What the fixed digest function returns for a given string: a deterministic
/// total function of the characters alone.
pub uninterp spec fn digest_of(s: Seq<char>) -> u64;

/// Relies on `prc::hash40::hash40`: a CRC-32-based digest packed with the
/// string length, a pure function of the characters alone, always below
/// `2^40`.
#[verifier::external_body]
pub(crate) fn hash40_digest(s: &str) -> (r: u64)
    ensures
        r == digest_of(s@),
        r < 0x100_0000_0000u64,
{
    prc::hash40::hash40(s).0
}

impl HashKey {
    /// Wraps a raw 64-bit value; always succeeds.
    pub fn from_value(value: u64) -> (r: HashKey)
        ensures
            r.value == value,
    {
        HashKey { value }
    }

    /// Digests a string with the fixed digest function; always succeeds.
    pub fn from_digest(s: &str) -> (r: HashKey)
        ensures
            r.value == digest_of(s@),
            r.value < 0x100_0000_0000u64,
    {
        HashKey { value: hash40_digest(s) }
    }

    /// The raw 64-bit value of the key.
    pub fn get_value(&self) -> (r: u64)
        ensures
            r == self.value,
    {
        self.value
    }
}

} // verus!
