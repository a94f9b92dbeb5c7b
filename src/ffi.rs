use vstd::prelude::*;
use crate::endpoint::{Endpoint, PeerId};

verus! {

/// Byte `k` (0 = most significant) of the 16-byte big-endian form of `v`.
pub open spec fn be_byte(v: u128, k: int) -> u8 {
    ((v >> ((8 * (15 - k)) as u128)) & 0xff) as u8
}

/// The 16-byte big-endian form of `v`.
pub fn to_be_bytes(v: u128) -> (r: [u8; 16])
    ensures
        forall|k: int| 0 <= k < 16 ==> r@[k] == be_byte(v, k),
{
    let mut r: [u8; 16] = [0u8; 16];
    let mut k: usize = 0;
    while k < 16
        invariant
            k <= 16,
            r@.len() == 16,
            forall|q: int| 0 <= q < k ==> r@[q] == be_byte(v, q),
        decreases 16 - k,
    {
        let b: u8 = #[verifier::truncate] (((v >> ((8 * (15 - k)) as u128)) & 0xff) as u8);
        r[k] = b;
        k = k + 1;
    }
    r
}

/// An endpoint as handed across a foreign-language boundary: the 16 IPv6
/// octets and the port.
#[derive(Debug)]
pub struct EndpointFFI {
    pub ipv6_octets: [u8; 16],
    pub port: u16,
}

/// An identity as handed across a foreign-language boundary: its 16 bytes,
/// most significant first.
#[derive(Debug)]
pub struct UuidFFI {
    pub bytes: [u8; 16],
}

/// Conversion to the form handed across a foreign-language boundary.
pub trait ToFfi<T> {
    fn to_ffi(&self) -> T;
}

/// The boundary form of an endpoint.
pub fn endpoint_to_ffi(e: &Endpoint) -> (r: EndpointFFI)
    ensures
        r.port == e.port,
        forall|k: int| 0 <= k < 16 ==> r.ipv6_octets@[k] == be_byte(e.ip, k),
{
    EndpointFFI { ipv6_octets: to_be_bytes(e.ip), port: e.port }
}

/// The boundary form of an identity.
pub fn identity_to_ffi(id: PeerId) -> (r: UuidFFI)
    ensures
        forall|k: int| 0 <= k < 16 ==> r.bytes@[k] == be_byte(id, k),
{
    UuidFFI { bytes: to_be_bytes(id) }
}

impl ToFfi<EndpointFFI> for Endpoint {
    fn to_ffi(&self) -> EndpointFFI {
        endpoint_to_ffi(self)
    }
}

impl ToFfi<UuidFFI> for PeerId {
    fn to_ffi(&self) -> UuidFFI {
        identity_to_ffi(*self)
    }
}

} // verus!
