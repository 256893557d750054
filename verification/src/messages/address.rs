//! The fixed-size network address record of the wire format.

use vstd::prelude::*;
use super::wire::{
    be_bytes, be_value, lemma_be_bytes_len, lemma_be_bytes_of_value, lemma_be_value_bound,
    lemma_be_value_of_bytes, lemma_pow256_values, read_be, write_be,
};
use super::{ByteSize, DecodeError};

verus! {

/// The length of an encoded address: timestamp, IPv6 address, port.
pub const ADDRESS_SIZE: usize = 8 + 16 + 2;

/// An IP address of either family, by its octets in network order.
#[derive(Debug, Clone, Copy, PartialEq, Eq)]
pub enum IpAddress {
    V4([u8; 4]),
    V6([u8; 16]),
}

impl IpAddress {
    /// The sixteen octets that stand for the address on the wire. An IPv4
    /// address becomes the IPv4-compatible IPv6 address: twelve zero octets,
    /// then its own four.
    pub open spec fn spec_octets(self) -> Seq<u8> {
        match self {
            IpAddress::V4(octets) => Seq::new(12, |i: int| 0u8) + octets@,
            IpAddress::V6(octets) => octets@,
        }
    }
}

/// Where a peer says it can be reached, and when it said so.
#[derive(Debug, Clone, Copy, PartialEq, Eq)]
pub struct Address {
    timestamp: u64,
    addr: [u8; 16],
    port: u16,
}

/// What an `Address` holds.
pub struct AddressView {
    pub timestamp: u64,
    pub addr: Seq<u8>,
    pub port: u16,
}

impl AddressView {
    /// The address has the sixteen octets of IPv6.
    pub open spec fn wf(self) -> bool {
        self.addr.len() == 16
    }

    /// The bytes on the wire.
    pub open spec fn spec_encode(self) -> Seq<u8> {
        be_bytes(self.timestamp as nat, 8) + self.addr + be_bytes(self.port as nat, 2)
    }
}

impl View for Address {
    type V = AddressView;

    closed spec fn view(&self) -> AddressView {
        AddressView { timestamp: self.timestamp, addr: self.addr@, port: self.port }
    }
}

impl Address {
    /// The record that `new` makes.
    pub open spec fn spec_new(timestamp: u64, addr: IpAddress, port: u16) -> AddressView {
        AddressView { timestamp, addr: addr.spec_octets(), port }
    }

    /// What the front of `bytes` decodes to. Bytes after the record are
    /// ignored.
    pub open spec fn spec_decode(bytes: Seq<u8>) -> Result<AddressView, DecodeError> {
        if bytes.len() < ADDRESS_SIZE {
            Err(DecodeError::ShortBuffer)
        } else {
            Ok(
                AddressView {
                    timestamp: be_value(bytes.subrange(0, 8)) as u64,
                    addr: bytes.subrange(8, 24),
                    port: be_value(bytes.subrange(24, 26)) as u16,
                },
            )
        }
    }

    /// Every address is well formed.
    pub proof fn lemma_wf(&self)
        ensures
            self@.wf(),
    {
    }

    /// Makes a record; an IPv4 address is stored as IPv4-compatible IPv6.
    pub fn new(timestamp: u64, addr: IpAddress, port: u16) -> (address: Self)
        ensures
            address@ == Self::spec_new(timestamp, addr, port),
    {
        let addr: [u8; 16] = match addr {
            IpAddress::V4(octets) => {
                let mut wide: [u8; 16] = [0u8; 16];
                let mut i: usize = 0;
                while i < 4
                    invariant
                        i <= 4,
                        forall|j: int| 0 <= j < 12 ==> wide@[j] == 0,
                        forall|j: int| 0 <= j < i ==> wide@[12 + j] == octets@[j],
                    decreases 4 - i,
                {
                    wide[12 + i] = octets[i];
                    i = i + 1;
                }
                assert(wide@ =~= IpAddress::V4(octets).spec_octets());
                wide
            },
            IpAddress::V6(octets) => octets,
        };
        Address { timestamp, addr, port }
    }

    /// When the address was reported.
    pub fn timestamp(&self) -> (timestamp: u64)
        ensures
            timestamp == self@.timestamp,
    {
        self.timestamp
    }

    /// The sixteen octets of the address.
    pub fn addr(&self) -> (addr: [u8; 16])
        ensures
            addr@ == self@.addr,
    {
        self.addr
    }

    /// The port.
    pub fn port(&self) -> (port: u16)
        ensures
            port == self@.port,
    {
        self.port
    }
}

/// Encoding and then decoding a record gives it back, whatever bytes follow
/// it on the wire, and the encoding has the fixed size.
pub proof fn lemma_address_round_trip(address: AddressView, rest: Seq<u8>)
    requires
        address.wf(),
    ensures
        Address::spec_decode(address.spec_encode() + rest) == Ok::<AddressView, DecodeError>(
            address,
        ),
        address.spec_encode().len() == ADDRESS_SIZE,
{
    let wire = address.spec_encode() + rest;
    lemma_pow256_values();
    lemma_be_bytes_len(address.timestamp as nat, 8);
    lemma_be_bytes_len(address.port as nat, 2);
    lemma_be_value_of_bytes(address.timestamp as nat, 8);
    lemma_be_value_of_bytes(address.port as nat, 2);
    assert(wire.subrange(0, 8) =~= be_bytes(address.timestamp as nat, 8));
    assert(wire.subrange(8, 24) =~= address.addr);
    assert(wire.subrange(24, 26) =~= be_bytes(address.port as nat, 2));
}

/// Whatever the timestamp, the address family and the port, the record made
/// of them survives the trip through the encoder and the decoder; what comes
/// back of an IPv4 address is its IPv4-compatible IPv6 form.
pub proof fn lemma_address_round_trip_of_parts(timestamp: u64, addr: IpAddress, port: u16)
    ensures
        Address::spec_decode(Address::spec_new(timestamp, addr, port).spec_encode()) == Ok::<
            AddressView,
            DecodeError,
        >(Address::spec_new(timestamp, addr, port)),
        Address::spec_new(timestamp, addr, port).wf(),
        addr matches IpAddress::V4(octets) ==> {
            let stored = Address::spec_new(timestamp, addr, port).addr;
            &&& stored.subrange(12, 16) == octets@
            &&& forall|i: int| 0 <= i < 12 ==> stored[i] == 0
        },
{
    let address = Address::spec_new(timestamp, addr, port);
    lemma_address_round_trip(address, Seq::empty());
    assert(address.spec_encode() + Seq::<u8>::empty() =~= address.spec_encode());
    if let IpAddress::V4(octets) = addr {
        assert(address.addr.subrange(12, 16) =~= octets@);
    }
}

/// What decodes at the front of a buffer is well formed and encodes to the
/// very bytes it was read from.
pub proof fn lemma_address_decoded_prefix(bytes: Seq<u8>)
    requires
        Address::spec_decode(bytes) is Ok,
    ensures
        Address::spec_decode(bytes)->Ok_0.wf(),
        bytes.subrange(0, ADDRESS_SIZE as int) == Address::spec_decode(bytes)->Ok_0.spec_encode(),
{
    let address = Address::spec_decode(bytes)->Ok_0;
    lemma_pow256_values();
    lemma_be_value_bound(bytes.subrange(0, 8));
    lemma_be_value_bound(bytes.subrange(24, 26));
    lemma_be_bytes_of_value(bytes.subrange(0, 8));
    lemma_be_bytes_of_value(bytes.subrange(24, 26));
    assert(bytes.subrange(0, 26) =~= bytes.subrange(0, 8) + bytes.subrange(8, 24)
        + bytes.subrange(24, 26));
}

impl ByteSize for Address {
    open spec fn spec_byte_size(&self) -> nat {
        ADDRESS_SIZE as nat
    }

    fn byte_size(&self) -> (n: usize) {
        8 + 16 + 2
    }
}

impl TryFrom<&[u8]> for Address {
    type Error = DecodeError;

    /// Decodes the record at the front of `bytes`.
    fn try_from(bytes: &[u8]) -> (decoded: Result<Self, DecodeError>)
        ensures
            match decoded {
                Ok(address) => Address::spec_decode(bytes@) == Ok::<AddressView, DecodeError>(
                    address@,
                ),
                Err(e) => Address::spec_decode(bytes@) == Err::<AddressView, DecodeError>(e),
            },
    {
        if bytes.len() < ADDRESS_SIZE {
            return Err(DecodeError::ShortBuffer);
        }
        proof {
            lemma_pow256_values();
            lemma_be_value_bound(bytes@.subrange(24, 26));
        }
        let timestamp = read_be(bytes, 0, 8);
        let mut addr: [u8; 16] = [0u8; 16];
        let mut i: usize = 0;
        while i < 16
            invariant
                i <= 16,
                bytes@.len() >= 26,
                forall|j: int| 0 <= j < i ==> addr@[j] == bytes@[8 + j],
            decreases 16 - i,
        {
            addr[i] = bytes[8 + i];
            i = i + 1;
        }
        let port = read_be(bytes, 24, 2) as u16;
        assert(addr@ =~= bytes@.subrange(8, 24));
        Ok(Address { timestamp, addr, port })
    }
}

impl vstd::std_specs::convert::TryFromSpecImpl<&[u8]> for Address {
    /// An address is known by its view, so the contract of `try_from` speaks
    /// of the view and this general form promises nothing.
    open spec fn obeys_try_from_spec() -> bool {
        false
    }

    open spec fn try_from_spec(bytes: &[u8]) -> Result<Self, DecodeError> {
        arbitrary()
    }
}

impl From<Address> for Vec<u8> {
    /// Encodes the record.
    fn from(addr: Address) -> (bytes: Vec<u8>)
        ensures
            bytes@ == addr@.spec_encode(),
    {
        let mut bytes: Vec<u8> = Vec::new();
        write_be(&mut bytes, addr.timestamp, 8);
        bytes.extend_from_slice(addr.addr.as_slice());
        write_be(&mut bytes, addr.port as u64, 2);
        assert(bytes@ =~= addr@.spec_encode());
        bytes
    }
}

impl vstd::std_specs::convert::FromSpecImpl<Address> for Vec<u8> {
    /// A vector is known by its view alone, so the contract of `from` speaks
    /// of the view and this general form promises nothing.
    open spec fn obeys_from_spec() -> bool {
        false
    }

    open spec fn from_spec(addr: Address) -> Vec<u8> {
        arbitrary()
    }
}

} // verus!
