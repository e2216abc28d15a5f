//! Account addresses: 32 raw bytes (an Ed25519 public key).
use vstd::prelude::*;
use vstd::string::StringSliceAdditionalSpecFns;
use crate::core_types::hex::{hex_decode, spec_hex_decode, spec_hex_error_text};

verus! {

#[derive(Clone, Copy, Debug, Eq, Hash)]
pub struct Address(pub [u8; 32]);

/// Byte-wise equality of two 32-byte arrays.
pub fn bytes32_eq(a: &[u8; 32], b: &[u8; 32]) -> (r: bool)
    ensures
        r == (a@ == b@),
{
    let mut i: usize = 0;
    while i < 32
        invariant
            0 <= i <= 32,
            a@.len() == 32,
            b@.len() == 32,
            forall|j: int| 0 <= j < i ==> a@[j] == b@[j],
        decreases 32 - i,
    {
        if a[i] != b[i] {
            return false;
        }
        i = i + 1;
    }
    assert(a@ =~= b@);
    true
}

impl PartialEq for Address {
    fn eq(&self, other: &Self) -> (r: bool) {
        bytes32_eq(&self.0, &other.0)
    }
}

impl vstd::std_specs::cmp::PartialEqSpecImpl for Address {
    open spec fn obeys_eq_spec() -> bool {
        true
    }

    open spec fn eq_spec(&self, other: &Self) -> bool {
        self.0@ == other.0@
    }
}

impl From<[u8; 32]> for Address {
    fn from(bytes: [u8; 32]) -> (a: Self) {
        Address(bytes)
    }
}

impl vstd::std_specs::convert::FromSpecImpl<[u8; 32]> for Address {
    open spec fn obeys_from_spec() -> bool {
        true
    }

    open spec fn from_spec(v: [u8; 32]) -> Self {
        Address(v)
    }
}

/// The error text for hex that decodes to other than 32 bytes.
pub open spec fn address_length_error() -> Seq<char> {
    "Address must be 32 bytes"@
}

impl Address {
    /// Parse 64 hex digits (either case) into an address. Text that is not
    /// hex is refused with the decoder's message; hex of another length with
    /// `address_length_error()`.
    pub fn from_hex(s: &str) -> (r: Result<Address, String>)
        ensures
            r is Ok <==> (spec_hex_decode(s.spec_bytes()) matches Some(b) && b.len() == 32),
            r matches Ok(a) ==> spec_hex_decode(s.spec_bytes()) == Some(a.0@),
            r matches Err(m) ==> (spec_hex_decode(s.spec_bytes()) is None && m@ == spec_hex_error_text(s.spec_bytes()))
                || (spec_hex_decode(s.spec_bytes()) is Some && m@ == address_length_error()),
    {
        Address::from_hex_bytes(s.as_bytes())
    }

    /// `from_hex` on the UTF-8 bytes of the text.
    pub fn from_hex_bytes(s: &[u8]) -> (r: Result<Address, String>)
        ensures
            r is Ok <==> (spec_hex_decode(s@) matches Some(b) && b.len() == 32),
            r matches Ok(a) ==> spec_hex_decode(s@) == Some(a.0@),
            r matches Err(m) ==> (spec_hex_decode(s@) is None && m@ == spec_hex_error_text(s@))
                || (spec_hex_decode(s@) is Some && m@ == address_length_error()),
    {
        match hex_decode(s) {
            Err(e) => Err(e),
            Ok(v) => {
                if v.len() != 32 {
                    return Err("Address must be 32 bytes".to_owned());
                }
                let mut out = [0u8; 32];
                let mut i: usize = 0;
                while i < 32
                    invariant
                        0 <= i <= 32,
                        v@.len() == 32,
                        out@.len() == 32,
                        forall|j: int| 0 <= j < i ==> out@[j] == v@[j],
                    decreases 32 - i,
                {
                    out[i] = v[i];
                    i = i + 1;
                }
                assert(out@ =~= v@);
                Ok(Address(out))
            }
        }
    }

    /// The all-zero address, used for system transactions.
    pub fn zero() -> (a: Address)
        ensures
            a.0@ == Seq::new(32, |i: int| 0u8),
    {
        let a = Address([0u8; 32]);
        assert(a.0@ =~= Seq::new(32, |i: int| 0u8));
        a
    }

    pub fn as_bytes(&self) -> (b: &[u8; 32])
        ensures
            b@ == self.0@,
    {
        &self.0
    }

    pub fn from_bytes(bytes: [u8; 32]) -> (a: Address)
        ensures
            a.0 == bytes,
    {
        Address(bytes)
    }

    /// Whether this is the all-zero address.
    pub fn is_zero(&self) -> (b: bool)
        ensures
            b == (self.0@ == Seq::new(32, |i: int| 0u8)),
    {
        let mut i: usize = 0;
        while i < 32
            invariant
                0 <= i <= 32,
                forall|j: int| 0 <= j < i ==> self.0@[j] == 0u8,
            decreases 32 - i,
        {
            if self.0[i] != 0 {
                assert(self.0@ != Seq::new(32, |k: int| 0u8)) by {
                    assert(Seq::new(32, |k: int| 0u8)[i as int] == 0u8);
                }
                return false;
            }
            i = i + 1;
        }
        assert(self.0@ =~= Seq::new(32, |k: int| 0u8));
        true
    }
}

/// Content address of a blob held by B.U.D. storage.
#[derive(Clone, Copy, Debug, Eq, Hash)]
pub struct ContentId(pub [u8; 32]);

impl ContentId {
    /// The content address of `data`: its SHA-256 digest.
    pub fn of(data: &[u8]) -> (c: ContentId)
        ensures
            c.0@ == crate::core_types::hash::spec_sha256(data@),
    {
        ContentId(crate::core_types::hash::sha256(data))
    }
}

impl PartialEq for ContentId {
    fn eq(&self, other: &Self) -> (r: bool) {
        bytes32_eq(&self.0, &other.0)
    }
}

impl vstd::std_specs::cmp::PartialEqSpecImpl for ContentId {
    open spec fn obeys_eq_spec() -> bool {
        true
    }

    open spec fn eq_spec(&self, other: &Self) -> bool {
        self.0@ == other.0@
    }
}

} // verus!
