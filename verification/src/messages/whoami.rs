//! The payload by which a node introduces itself.

use vstd::prelude::*;
use vstd::utf8::is_ascii_chars;
use super::address::{
    lemma_address_decoded_prefix, lemma_address_round_trip, Address, AddressView, ADDRESS_SIZE,
};
use super::var_str::{lemma_varstr_decoded_prefix, lemma_varstr_round_trip, VarStr, VarStrView};
use super::var_uint::{lemma_varuint_decoded_prefix, lemma_varuint_round_trip, VarUint};
use super::wire::{
    be_bytes, be_value, lemma_be_bytes_len, lemma_be_bytes_of_value, lemma_be_value_bound,
    lemma_be_value_of_bytes, lemma_pow256_values, read_be, write_be,
};
use super::{ByteSize, DecodeError};

verus! {

/// The whoami payload: the protocol version a node speaks, the address it
/// reports for itself, and the services it offers.
#[derive(Debug, PartialEq)]
pub struct Whoami {
    version: u32,
    from: Address,
    service_count: VarUint,
    services: Vec<VarStr>,
}

/// What a `Whoami` holds.
pub struct WhoamiView {
    pub version: u32,
    pub from: AddressView,
    pub service_count: VarUint,
    pub services: Seq<VarStrView>,
}

/// The views of some strings, in order.
pub open spec fn views_of(services: Seq<VarStr>) -> Seq<VarStrView> {
    Seq::new(services.len(), |i: int| services[i]@)
}

/// The texts of some strings, in order.
pub open spec fn texts_of(names: Seq<String>) -> Seq<Seq<char>> {
    Seq::new(names.len(), |i: int| names[i]@)
}

/// The encodings of some strings, one after the other.
pub open spec fn encode_services(services: Seq<VarStrView>) -> Seq<u8>
    decreases services.len(),
{
    if services.len() == 0 {
        Seq::empty()
    } else {
        services.first().spec_encode() + encode_services(services.drop_first())
    }
}

/// The length of the encodings of some strings together.
pub open spec fn services_size(services: Seq<VarStrView>) -> nat
    decreases services.len(),
{
    if services.len() == 0 {
        0
    } else {
        services.first().spec_byte_size() + services_size(services.drop_first())
    }
}

/// The `count` strings that stand one after the other at the front of
/// `bytes`.
pub open spec fn decode_services(bytes: Seq<u8>, count: nat) -> Result<
    Seq<VarStrView>,
    DecodeError,
>
    decreases count,
{
    if count == 0 {
        Ok(Seq::empty())
    } else {
        match VarStr::spec_decode(bytes) {
            Err(e) => Err(e),
            Ok(first) => match decode_services(
                bytes.skip(first.spec_byte_size() as int),
                (count - 1) as nat,
            ) {
                Err(e) => Err(e),
                Ok(rest) => Ok(seq![first] + rest),
            },
        }
    }
}

impl WhoamiView {
    /// The payload that `new` makes.
    pub open spec fn spec_new(version: u32, from: AddressView, names: Seq<Seq<char>>) -> WhoamiView {
        WhoamiView {
            version,
            from,
            service_count: VarUint::spec_new(names.len() as u64),
            services: Seq::new(names.len(), |i: int| VarStrView::of_text(names[i])),
        }
    }

    /// The parts are well formed and the count is the number of services.
    pub open spec fn wf(self) -> bool {
        &&& self.from.wf()
        &&& self.service_count.wf()
        &&& self.service_count.spec_value() == self.services.len()
        &&& forall|i: int| 0 <= i < self.services.len() ==> (#[trigger] self.services[i]).wf()
    }

    /// The length of the encoding.
    pub open spec fn spec_byte_size(self) -> nat {
        4 + ADDRESS_SIZE as nat + self.service_count.spec_byte_size() + services_size(
            self.services,
        )
    }

    /// The bytes on the wire.
    pub open spec fn spec_encode(self) -> Seq<u8> {
        be_bytes(self.version as nat, 4) + self.from.spec_encode()
            + self.service_count.spec_encode() + encode_services(self.services)
    }

    /// The names of the services.
    pub open spec fn names(self) -> Seq<Seq<char>> {
        Seq::new(self.services.len(), |i: int| self.services[i].text)
    }
}

impl View for Whoami {
    type V = WhoamiView;

    closed spec fn view(&self) -> WhoamiView {
        WhoamiView {
            version: self.version,
            from: self.from@,
            service_count: self.service_count,
            services: views_of(self.services@),
        }
    }
}

/// One more string at the end adds its encoding at the end.
pub proof fn lemma_encode_services_push(services: Seq<VarStrView>, last: VarStrView)
    ensures
        encode_services(services.push(last)) == encode_services(services) + last.spec_encode(),
        services_size(services.push(last)) == services_size(services) + last.spec_byte_size(),
    decreases services.len(),
{
    let all = services.push(last);
    reveal_with_fuel(encode_services, 2);
    reveal_with_fuel(services_size, 2);
    if services.len() == 0 {
        assert(all.drop_first() =~= Seq::<VarStrView>::empty());
        assert(encode_services(all) =~= last.spec_encode());
    } else {
        assert(all.drop_first() =~= services.drop_first().push(last));
        lemma_encode_services_push(services.drop_first(), last);
        assert(encode_services(all) =~= encode_services(services) + last.spec_encode());
    }
}

/// The first strings of a list take no more room than the whole list.
pub proof fn lemma_services_size_take(services: Seq<VarStrView>, n: int)
    requires
        0 <= n <= services.len(),
    ensures
        services_size(services.take(n)) <= services_size(services),
    decreases services.len() - n,
{
    if n < services.len() {
        lemma_services_size_take(services, n + 1);
        assert(services.take(n + 1) =~= services.take(n).push(services[n]));
        lemma_encode_services_push(services.take(n), services[n]);
    } else {
        assert(services.take(n) =~= services);
    }
}

/// Encoding well-formed strings and decoding as many gives them back,
/// whatever bytes follow them on the wire.
pub proof fn lemma_services_round_trip(services: Seq<VarStrView>, rest: Seq<u8>)
    requires
        forall|i: int| 0 <= i < services.len() ==> (#[trigger] services[i]).wf(),
    ensures
        decode_services(encode_services(services) + rest, services.len()) == Ok::<
            Seq<VarStrView>,
            DecodeError,
        >(services),
        encode_services(services).len() == services_size(services),
    decreases services.len(),
{
    if services.len() > 0 {
        let first = services.first();
        let others = services.drop_first();
        let wire = encode_services(services) + rest;
        assert(first.wf());
        assert forall|i: int| 0 <= i < others.len() implies (#[trigger] others[i]).wf() by {
            assert(services[i + 1].wf());
        }
        lemma_varstr_round_trip(first, encode_services(others) + rest);
        assert(wire =~= first.spec_encode() + (encode_services(others) + rest));
        assert(wire.skip(first.spec_byte_size() as int) =~= encode_services(others) + rest);
        lemma_services_round_trip(others, rest);
        assert(seq![first] + others =~= services);
    } else {
        assert(services =~= Seq::<VarStrView>::empty());
    }
}

/// Strings that decode at the front of a buffer are as many as asked for,
/// are well formed, lie within the buffer, and encode to the very bytes they
/// were read from.
pub proof fn lemma_services_decoded_prefix(bytes: Seq<u8>, count: nat)
    requires
        decode_services(bytes, count) is Ok,
    ensures
        ({
            let services = decode_services(bytes, count)->Ok_0;
            &&& services.len() == count
            &&& forall|i: int| 0 <= i < services.len() ==> (#[trigger] services[i]).wf()
            &&& services_size(services) <= bytes.len()
            &&& bytes.subrange(0, services_size(services) as int) == encode_services(services)
        }),
    decreases count,
{
    let services = decode_services(bytes, count)->Ok_0;
    if count == 0 {
        assert(bytes.subrange(0, 0) =~= Seq::<u8>::empty());
    } else {
        let first = VarStr::spec_decode(bytes)->Ok_0;
        let size = first.spec_byte_size() as int;
        lemma_varstr_decoded_prefix(bytes);
        lemma_services_decoded_prefix(bytes.skip(size), (count - 1) as nat);
        let others = decode_services(bytes.skip(size), (count - 1) as nat)->Ok_0;
        assert(services.drop_first() =~= others);
        assert(services.first() == first);
        assert forall|i: int| 0 <= i < services.len() implies (#[trigger] services[i]).wf() by {
            if i > 0 {
                assert(others[i - 1].wf());
            }
        }
        let total = services_size(services) as int;
        assert(bytes.subrange(0, total) =~= bytes.subrange(0, size) + bytes.skip(size).subrange(
            0,
            total - size,
        ));
    }
}

impl Whoami {
    /// What `bytes` decode to. Bytes after the last service are ignored.
    pub open spec fn spec_decode(bytes: Seq<u8>) -> Result<WhoamiView, DecodeError> {
        if bytes.len() < 4 {
            Err(DecodeError::ShortBuffer)
        } else {
            match Address::spec_decode(bytes.skip(4)) {
                Err(e) => Err(e),
                Ok(from) => match VarUint::spec_decode(bytes.skip(4 + ADDRESS_SIZE as int)) {
                    Err(e) => Err(e),
                    Ok(service_count) => match decode_services(
                        bytes.skip(4 + ADDRESS_SIZE as int + service_count.spec_byte_size()),
                        service_count.spec_value() as nat,
                    ) {
                        Err(e) => Err(e),
                        Ok(services) => Ok(
                            WhoamiView {
                                version: be_value(bytes.subrange(0, 4)) as u32,
                                from,
                                service_count,
                                services,
                            },
                        ),
                    },
                },
            }
        }
    }

    /// Makes the payload that offers the services named.
    pub fn new(version: u32, from: Address, services: Vec<String>) -> (whoami: Self)
        ensures
            whoami@ == WhoamiView::spec_new(version, from@, texts_of(services@)),
    {
        let service_count = VarUint::new(services.len() as u64);
        let ghost names = texts_of(services@);
        let mut wrapped: Vec<VarStr> = Vec::new();
        let mut i: usize = 0;
        while i < services.len()
            invariant
                i <= services.len(),
                names == texts_of(services@),
                wrapped@.len() == i,
                forall|j: int| 0 <= j < i ==> (#[trigger] wrapped@[j])@ == VarStrView::of_text(names[j]),
            decreases services.len() - i,
        {
            wrapped.push(VarStr::new(services[i].clone()));
            i = i + 1;
        }
        assert(views_of(wrapped@) =~= Seq::new(names.len(), |i: int| VarStrView::of_text(names[i])));
        Whoami { version, from, service_count, services: wrapped }
    }

    /// The protocol version that the sender speaks.
    pub fn version(&self) -> (version: u32)
        ensures
            version == self@.version,
    {
        self.version
    }

    /// The address that the sender reports for itself.
    pub fn from(&self) -> (from: Address)
        ensures
            from@ == self@.from,
    {
        self.from
    }

    /// The names of the services that the sender offers.
    pub fn services(&self) -> (names: Vec<String>)
        ensures
            texts_of(names@) == self@.names(),
    {
        let mut names: Vec<String> = Vec::new();
        let mut i: usize = 0;
        while i < self.services.len()
            invariant
                i <= self.services.len(),
                names@.len() == i,
                forall|j: int| 0 <= j < i ==> (#[trigger] names@[j])@ == self.services@[j]@.text,
            decreases self.services.len() - i,
        {
            names.push(self.services[i].value());
            i = i + 1;
        }
        assert(texts_of(names@) =~= self@.names());
        names
    }
}

/// Encoding and then decoding a well-formed payload gives it back, whatever
/// bytes follow it on the wire, and the encoding is as long as `byte_size`
/// says.
pub proof fn lemma_whoami_round_trip(whoami: WhoamiView, rest: Seq<u8>)
    requires
        whoami.wf(),
    ensures
        Whoami::spec_decode(whoami.spec_encode() + rest) == Ok::<WhoamiView, DecodeError>(whoami),
        whoami.spec_encode().len() == whoami.spec_byte_size(),
{
    let wire = whoami.spec_encode() + rest;
    let version = be_bytes(whoami.version as nat, 4);
    let from = whoami.from.spec_encode();
    let count = whoami.service_count.spec_encode();
    let services = encode_services(whoami.services);
    lemma_pow256_values();
    lemma_be_bytes_len(whoami.version as nat, 4);
    lemma_be_value_of_bytes(whoami.version as nat, 4);
    lemma_address_round_trip(whoami.from, count + services + rest);
    lemma_varuint_round_trip(whoami.service_count, services + rest);
    lemma_services_round_trip(whoami.services, rest);
    assert(wire.subrange(0, 4) =~= version);
    assert(wire.skip(4) =~= from + (count + services + rest));
    assert(wire.skip(4 + ADDRESS_SIZE as int) =~= count + (services + rest));
    assert(wire.skip(4 + ADDRESS_SIZE as int + whoami.service_count.spec_byte_size()) =~= services
        + rest);
}

/// Whatever the version, the address and the ASCII service names, the
/// payload that `new` makes of them is well formed, so it survives the trip
/// through the encoder and the decoder.
pub proof fn lemma_whoami_round_trip_of_parts(
    version: u32,
    from: AddressView,
    names: Seq<Seq<char>>,
)
    requires
        from.wf(),
        names.len() <= u64::MAX,
        forall|i: int| 0 <= i < names.len() ==> is_ascii_chars(#[trigger] names[i]) && names[i].len()
            <= u64::MAX,
    ensures
        WhoamiView::spec_new(version, from, names).wf(),
        WhoamiView::spec_new(version, from, names).names() == names,
        Whoami::spec_decode(WhoamiView::spec_new(version, from, names).spec_encode()) == Ok::<
            WhoamiView,
            DecodeError,
        >(WhoamiView::spec_new(version, from, names)),
        WhoamiView::spec_new(version, from, names).spec_encode().len() == WhoamiView::spec_new(
            version,
            from,
            names,
        ).spec_byte_size(),
{
    let whoami = WhoamiView::spec_new(version, from, names);
    assert forall|i: int| 0 <= i < whoami.services.len() implies (#[trigger] whoami.services[
        i
    ]).wf() by {
        super::var_str::lemma_varstr_round_trip_of_text(names[i]);
    }
    assert(whoami.names() =~= names);
    lemma_whoami_round_trip(whoami, Seq::empty());
    assert(whoami.spec_encode() + Seq::<u8>::empty() =~= whoami.spec_encode());
}

/// What decodes is well formed, lies within the buffer, and encodes to the
/// very bytes it was read from.
pub proof fn lemma_whoami_decoded_prefix(bytes: Seq<u8>)
    requires
        Whoami::spec_decode(bytes) is Ok,
    ensures
        ({
            let whoami = Whoami::spec_decode(bytes)->Ok_0;
            &&& whoami.wf()
            &&& whoami.spec_byte_size() <= bytes.len()
            &&& bytes.subrange(0, whoami.spec_byte_size() as int) == whoami.spec_encode()
        }),
{
    let whoami = Whoami::spec_decode(bytes)->Ok_0;
    let at_count = 4 + ADDRESS_SIZE as int;
    let at_services = at_count + whoami.service_count.spec_byte_size();
    let total = whoami.spec_byte_size() as int;
    lemma_pow256_values();
    lemma_be_value_bound(bytes.subrange(0, 4));
    lemma_be_bytes_of_value(bytes.subrange(0, 4));
    lemma_address_decoded_prefix(bytes.skip(4));
    lemma_varuint_decoded_prefix(bytes.skip(at_count));
    lemma_services_decoded_prefix(bytes.skip(at_services), whoami.service_count.spec_value() as nat);
    assert(bytes.subrange(0, total) =~= bytes.subrange(0, 4) + bytes.skip(4).subrange(
        0,
        ADDRESS_SIZE as int,
    ) + bytes.skip(at_count).subrange(0, whoami.service_count.spec_byte_size() as int)
        + bytes.skip(at_services).subrange(0, services_size(whoami.services) as int));
}

impl ByteSize for Whoami {
    open spec fn spec_byte_size(&self) -> nat {
        self@.spec_byte_size()
    }

    fn byte_size(&self) -> (n: usize) {
        let mut n: usize = 4 + self.from.byte_size() + self.service_count.byte_size();
        let ghost services = views_of(self.services@);
        let mut i: usize = 0;
        while i < self.services.len()
            invariant
                i <= self.services.len(),
                services == views_of(self.services@),
                n == 4 + ADDRESS_SIZE + self.service_count.spec_byte_size() + services_size(
                    services.take(i as int),
                ),
                4 + ADDRESS_SIZE + self.service_count.spec_byte_size() + services_size(services)
                    <= usize::MAX,
            decreases self.services.len() - i,
        {
            proof {
                lemma_services_size_take(services, i + 1);
                assert(services.take(i + 1) =~= services.take(i as int).push(services[i as int]));
                lemma_encode_services_push(services.take(i as int), services[i as int]);
            }
            n = n + self.services[i].byte_size();
            i = i + 1;
        }
        assert(services.take(i as int) =~= services);
        n
    }
}

impl TryFrom<&[u8]> for Whoami {
    type Error = DecodeError;

    /// Decodes the payload at the front of `bytes`.
    #[verifier::loop_isolation(false)]
    fn try_from(bytes: &[u8]) -> (decoded: Result<Self, DecodeError>)
        ensures
            match decoded {
                Ok(whoami) => Whoami::spec_decode(bytes@) == Ok::<WhoamiView, DecodeError>(
                    whoami@,
                ),
                Err(e) => Whoami::spec_decode(bytes@) == Err::<WhoamiView, DecodeError>(e),
            },
    {
        let len: usize = bytes.len();
        if len < 4 {
            return Err(DecodeError::ShortBuffer);
        }
        proof {
            lemma_pow256_values();
            lemma_be_value_bound(bytes@.subrange(0, 4));
        }
        let version = read_be(bytes, 0, 4) as u32;
        let from = Address::try_from(vstd::slice::slice_subrange(bytes, 4, len))?;
        let at_count: usize = 4 + ADDRESS_SIZE;
        let service_count = VarUint::try_from(vstd::slice::slice_subrange(bytes, at_count, len))?;
        proof {
            lemma_varuint_decoded_prefix(bytes@.skip(at_count as int));
        }
        let at_services: usize = at_count + service_count.byte_size();
        let count: u64 = service_count.value();
        let ghost wanted = decode_services(bytes@.skip(at_services as int), count as nat);
        let mut services: Vec<VarStr> = Vec::new();
        let mut at: usize = at_services;
        let mut i: u64 = 0;
        while i < count
            invariant
                i <= count,
                at_services <= at <= len == bytes@.len(),
                services@.len() == i,
                wanted == decode_services(bytes@.skip(at_services as int), count as nat),
                wanted == match decode_services(bytes@.skip(at as int), (count - i) as nat) {
                    Err(e) => Err::<Seq<VarStrView>, DecodeError>(e),
                    Ok(rest) => Ok(views_of(services@) + rest),
                },
            decreases count - i,
        {
            let ghost tail = bytes@.skip(at as int);
            let ghost before = views_of(services@);
            let s = match VarStr::try_from(vstd::slice::slice_subrange(bytes, at, len)) {
                Ok(s) => s,
                Err(e) => {
                    return Err(e);
                },
            };
            proof {
                lemma_varstr_decoded_prefix(tail);
                assert(tail.skip(s@.spec_byte_size() as int) =~= bytes@.skip(
                    at + s@.spec_byte_size(),
                ));
                let rest = decode_services(tail.skip(s@.spec_byte_size() as int), (count - i - 1) as nat);
                if rest is Ok {
                    assert(before + (seq![s@] + rest->Ok_0) =~= before.push(s@) + rest->Ok_0);
                }
            }
            at = at + s.byte_size();
            services.push(s);
            i = i + 1;
            assert(views_of(services@) =~= before.push(s@));
        }
        assert(views_of(services@) + Seq::<VarStrView>::empty() =~= views_of(services@));
        Ok(Whoami { version, from, service_count, services })
    }
}

impl vstd::std_specs::convert::TryFromSpecImpl<&[u8]> for Whoami {
    /// A payload is known by its view, so the contract of `try_from` speaks
    /// of the view and this general form promises nothing.
    open spec fn obeys_try_from_spec() -> bool {
        false
    }

    open spec fn try_from_spec(bytes: &[u8]) -> Result<Self, DecodeError> {
        arbitrary()
    }
}

impl From<Whoami> for Vec<u8> {
    /// Encodes the payload.
    #[verifier::loop_isolation(false)]
    fn from(whoami: Whoami) -> (bytes: Vec<u8>)
        ensures
            bytes@ == whoami@.spec_encode(),
    {
        let mut bytes: Vec<u8> = Vec::new();
        write_be(&mut bytes, whoami.version as u64, 4);
        let mut from: Vec<u8> = Vec::<u8>::from(whoami.from);
        bytes.append(&mut from);
        let mut service_count: Vec<u8> = Vec::<u8>::from(whoami.service_count);
        bytes.append(&mut service_count);
        let ghost head = bytes@;
        let ghost all = views_of(whoami.services@);
        for service in iter: whoami.services
            invariant
                all == views_of(iter.seq()),
                bytes@ == head + encode_services(all.take(iter.index() as int)),
        {
            let ghost done = all.take(iter.index() as int);
            proof {
                assert(all.take(iter.index() + 1) =~= done.push(service@));
                lemma_encode_services_push(done, service@);
            }
            let mut encoded: Vec<u8> = Vec::<u8>::from(service);
            bytes.append(&mut encoded);
            assert(bytes@ =~= head + encode_services(done.push(service@)));
        }
        assert(all.take(all.len() as int) =~= all);
        assert(bytes@ =~= whoami@.spec_encode());
        bytes
    }
}

impl vstd::std_specs::convert::FromSpecImpl<Whoami> for Vec<u8> {
    /// A vector is known by its view alone, so the contract of `from` speaks
    /// of the view and this general form promises nothing.
    open spec fn obeys_from_spec() -> bool {
        false
    }

    open spec fn from_spec(whoami: Whoami) -> Vec<u8> {
        arbitrary()
    }
}

} // verus!
