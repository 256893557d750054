use peer_node::messages::address::{Address, IpAddress, ADDRESS_SIZE};
use peer_node::messages::header::{Header, HeaderError, HEADER_SIZE};
use peer_node::messages::states::MAGIC;
use peer_node::messages::text::{same_text, text_of_bytes};
use peer_node::messages::var_str::VarStr;
use peer_node::messages::var_uint::VarUint;
use peer_node::messages::whoami::Whoami;
use peer_node::messages::wire::{read_be, write_be};
use peer_node::messages::{ByteSize, DecodeError};

#[test]
fn test_new_varuint() {
    let pos: u64 = 8;
    assert_eq!(VarUint::new(pos), VarUint::Small(8));

    let pos: u64 = 255;
    assert_eq!(VarUint::new(pos), VarUint::Median(255));

    let pos: u64 = 1024;
    assert_eq!(VarUint::new(pos), VarUint::Median(1024));
}

#[test]
fn test_convert_varuint() {
    let var = VarUint::new(25433);
    let bytes = Vec::<u8>::from(var);
    assert_eq!(VarUint::try_from(bytes.as_slice()), Ok(VarUint::new(25433)));
}

#[test]
fn test_convert_varstr() {
    let var = VarStr::new("Oui".to_string());
    let bytes = Vec::<u8>::from(var);
    assert_eq!(VarStr::try_from(bytes.as_slice()), Ok(VarStr::new("Oui".to_string())));
}

#[test]
fn test_convert_address() {
    let var = Address::new(431, IpAddress::V4([127, 0, 0, 1]), 10);
    let bytes = Vec::<u8>::from(var);
    assert_eq!(
        Address::try_from(bytes.as_slice()),
        Ok(Address::new(431, IpAddress::V4([127, 0, 0, 1]), 10))
    );
}

#[test]
fn test_bytes_from_header() {
    let header = Header::new(42, "whoami", 0).unwrap();
    let bytes = Vec::<u8>::from(header);
    assert_eq!(Header::try_from(bytes), Ok(Header::new(42, "whoami", 0).unwrap()));
}

#[test]
fn test_convert_whoami() {
    let addr = Address::new(431, IpAddress::V4([127, 0, 0, 1]), 10);
    let whoami = Whoami::new(42, addr, Vec::new());
    let bytes = Vec::<u8>::from(whoami);

    let addr = Address::new(431, IpAddress::V4([127, 0, 0, 1]), 10);
    assert_eq!(Whoami::try_from(bytes.as_slice()), Ok(Whoami::new(42, addr, Vec::new())));
}

#[test]
fn test_convert_whoami_with_services() {
    let addr = Address::new(431, IpAddress::V4([127, 0, 0, 1]), 10);
    let services = vec!["node".to_string(), "network".to_string()];
    let whoami = Whoami::new(42, addr, services);
    let bytes = Vec::<u8>::from(whoami);

    let addr = Address::new(431, IpAddress::V4([127, 0, 0, 1]), 10);
    let services = vec!["node".to_string(), "network".to_string()];
    assert_eq!(Whoami::try_from(bytes.as_slice()), Ok(Whoami::new(42, addr, services)));
}

#[test]
fn test_whoami_byte_size() {
    let addr = Address::new(431, IpAddress::V4([127, 0, 0, 1]), 10);
    let services = vec!["node".to_string(), "network".to_string()];
    let whoami = Whoami::new(42, addr, services);
    let byte_size = whoami.byte_size();
    let bytes = Vec::<u8>::from(whoami);
    assert_eq!(bytes.len(), byte_size);
}

#[test]
fn varuint_exact_bytes() {
    assert_eq!(Vec::<u8>::from(VarUint::new(0)), vec![0x00]);
    assert_eq!(Vec::<u8>::from(VarUint::new(252)), vec![0xFC]);
    assert_eq!(Vec::<u8>::from(VarUint::new(253)), vec![0xFD, 0x00, 0xFD]);
    assert_eq!(Vec::<u8>::from(VarUint::new(25433)), vec![0xFD, 0x63, 0x59]);
    assert_eq!(Vec::<u8>::from(VarUint::new(0xFFFF)), vec![0xFD, 0xFF, 0xFF]);
    assert_eq!(Vec::<u8>::from(VarUint::new(0x1_0000)), vec![0xFE, 0x00, 0x01, 0x00, 0x00]);
    assert_eq!(Vec::<u8>::from(VarUint::new(0xFFFF_FFFF)), vec![0xFE, 0xFF, 0xFF, 0xFF, 0xFF]);
    assert_eq!(
        Vec::<u8>::from(VarUint::new(0x1_0000_0000)),
        vec![0xFF, 0x00, 0x00, 0x00, 0x01, 0x00, 0x00, 0x00, 0x00]
    );
    assert_eq!(
        Vec::<u8>::from(VarUint::new(0x0102_0304_0506_0708)),
        vec![0xFF, 0x01, 0x02, 0x03, 0x04, 0x05, 0x06, 0x07, 0x08]
    );
}

#[test]
fn varuint_picks_the_narrowest_variant() {
    assert_eq!(VarUint::new(252), VarUint::Small(252));
    assert_eq!(VarUint::new(253), VarUint::Median(253));
    assert_eq!(VarUint::new(0xFFFF), VarUint::Median(0xFFFF));
    assert_eq!(VarUint::new(0x1_0000), VarUint::Large(0x1_0000));
    assert_eq!(VarUint::new(0xFFFF_FFFF), VarUint::Large(0xFFFF_FFFF));
    assert_eq!(VarUint::new(0x1_0000_0000), VarUint::Big(0x1_0000_0000));
    assert_eq!(VarUint::new(u64::MAX), VarUint::Big(u64::MAX));
}

#[test]
fn varuint_round_trip_at_the_edges() {
    for num in [
        0u64,
        1,
        252,
        253,
        254,
        255,
        256,
        0xFFFF,
        0x1_0000,
        0xFFFF_FFFF,
        0x1_0000_0000,
        u64::MAX - 1,
        u64::MAX,
    ] {
        let var = VarUint::new(num);
        assert_eq!(var.value(), num);
        let size = var.byte_size();
        let mut bytes = Vec::<u8>::from(var);
        assert_eq!(bytes.len(), size);
        bytes.extend_from_slice(&[0xAA, 0xBB]);
        assert_eq!(VarUint::try_from(bytes.as_slice()), Ok(var));
    }
}

#[test]
fn varuint_decodes_an_encoding_wider_than_needed() {
    assert_eq!(VarUint::try_from(&[0xFD, 0x00, 0x05][..]), Ok(VarUint::Median(5)));
    assert_eq!(VarUint::Median(5).value(), 5);
    assert_eq!(VarUint::Median(5).byte_size(), 3);
    assert_eq!(Vec::<u8>::from(VarUint::Median(5)), vec![0xFD, 0x00, 0x05]);
}

#[test]
fn varuint_short_buffer() {
    assert_eq!(VarUint::try_from(&[][..]), Err(DecodeError::ShortBuffer));
    assert_eq!(VarUint::try_from(&[0xFD, 0x01][..]), Err(DecodeError::ShortBuffer));
    assert_eq!(VarUint::try_from(&[0xFE, 1, 2, 3][..]), Err(DecodeError::ShortBuffer));
    assert_eq!(VarUint::try_from(&[0xFF, 1, 2, 3, 4, 5, 6, 7][..]), Err(DecodeError::ShortBuffer));
    assert_eq!(VarUint::try_from(&[0xFC][..]), Ok(VarUint::Small(0xFC)));
}

#[test]
fn varstr_exact_bytes() {
    let var = VarStr::new("Oui".to_string());
    assert_eq!(var.byte_size(), 4);
    assert_eq!(Vec::<u8>::from(var), vec![3, b'O', b'u', b'i']);
    assert_eq!(Vec::<u8>::from(VarStr::new(String::new())), vec![0]);
}

#[test]
fn varstr_decodes_to_the_text() {
    let decoded = VarStr::try_from(&[4, b'n', b'o', b'd', b'e', b'x'][..]).unwrap();
    assert_eq!(decoded.value(), "node".to_string());
    assert_eq!(decoded.byte_size(), 5);
}

#[test]
fn varstr_long_text_gets_a_wider_prefix() {
    let text = "a".repeat(300);
    let var = VarStr::new(text.clone());
    assert_eq!(var.byte_size(), 303);
    let bytes = Vec::<u8>::from(var);
    assert_eq!(&bytes[..3], &[0xFD, 0x01, 0x2C]);
    assert_eq!(VarStr::try_from(bytes.as_slice()), Ok(VarStr::new(text)));
}

#[test]
fn varstr_errors() {
    assert_eq!(VarStr::try_from(&[][..]), Err(DecodeError::ShortBuffer));
    assert_eq!(VarStr::try_from(&[3, b'O', b'u'][..]), Err(DecodeError::ShortBuffer));
    assert_eq!(VarStr::try_from(&[0xFD, 0x00][..]), Err(DecodeError::ShortBuffer));
    // A byte above 0x7F is no ASCII, whether or not it is valid UTF-8.
    assert_eq!(VarStr::try_from(&[2, 0xC3, 0xA9][..]), Err(DecodeError::Malformed));
    assert_eq!(VarStr::try_from(&[1, 0xFF][..]), Err(DecodeError::Malformed));
    assert_eq!(VarStr::try_from(&[1, 0x7F][..]).unwrap().value(), "\u{7f}".to_string());
}

#[test]
fn varstr_of_text_outside_ascii_does_not_come_back() {
    let bytes = Vec::<u8>::from(VarStr::new("é".to_string()));
    assert_eq!(bytes, vec![2, 0xC3, 0xA9]);
    assert_eq!(VarStr::try_from(bytes.as_slice()), Err(DecodeError::Malformed));
}

#[test]
fn address_exact_bytes() {
    let bytes = Vec::<u8>::from(Address::new(431, IpAddress::V4([127, 0, 0, 1]), 10));
    let mut expected = vec![0, 0, 0, 0, 0, 0, 0x01, 0xAF];
    expected.extend_from_slice(&[0; 12]);
    expected.extend_from_slice(&[127, 0, 0, 1]);
    expected.extend_from_slice(&[0, 10]);
    assert_eq!(bytes, expected);
    assert_eq!(bytes.len(), ADDRESS_SIZE);
    assert_eq!(Address::new(431, IpAddress::V4([127, 0, 0, 1]), 10).byte_size(), 26);
}

#[test]
fn address_of_ipv4_is_its_ipv6_form() {
    let mut octets = [0u8; 16];
    octets[12..].copy_from_slice(&[10, 1, 2, 3]);
    let v4 = Address::new(7, IpAddress::V4([10, 1, 2, 3]), 8000);
    let v6 = Address::new(7, IpAddress::V6(octets), 8000);
    assert_eq!(v4, v6);
    assert_eq!(v4.addr(), octets);
    assert_eq!(v4.timestamp(), 7);
    assert_eq!(v4.port(), 8000);
}

#[test]
fn address_round_trip_ipv6() {
    let octets = [0x20, 0x01, 0x0d, 0xb8, 0, 0, 0, 0, 0, 0, 0, 0, 0, 0, 0, 1];
    let address = Address::new(u64::MAX, IpAddress::V6(octets), u16::MAX);
    let mut bytes = Vec::<u8>::from(address);
    bytes.push(0x55);
    assert_eq!(Address::try_from(bytes.as_slice()), Ok(address));
}

#[test]
fn address_short_buffer() {
    let bytes = Vec::<u8>::from(Address::new(431, IpAddress::V4([127, 0, 0, 1]), 10));
    assert_eq!(Address::try_from(&bytes[..25]), Err(DecodeError::ShortBuffer));
    assert_eq!(Address::try_from(&[][..]), Err(DecodeError::ShortBuffer));
}

#[test]
fn header_exact_bytes() {
    let bytes = Vec::<u8>::from(Header::new(MAGIC, "whoami", 36).unwrap());
    let mut expected = vec![0x00, 0x06, 0x70, 0x85];
    expected.extend_from_slice(b"whoami\0\0\0\0\0\0");
    expected.extend_from_slice(&[0, 0, 0, 0, 0, 0, 0, 36]);
    assert_eq!(bytes, expected);
    assert_eq!(bytes.len(), HEADER_SIZE);
}

#[test]
fn header_accessors() {
    let header = Header::new(42, "minus1thats3", u64::MAX).unwrap();
    assert_eq!(header.magic(), 42);
    assert_eq!(header.msg(), "minus1thats3");
    assert_eq!(header.length(), u64::MAX);
    let bytes = Vec::<u8>::from(header);
    assert_eq!(&bytes[4..16], b"minus1thats3");
    let back = Header::try_from(bytes).unwrap();
    assert_eq!(back.msg(), "minus1thats3");
    assert_eq!(back.length(), u64::MAX);
}

#[test]
fn header_new_errors() {
    assert_eq!(Header::new(42, "héllo", 0), Err(HeaderError::NotAscii));
    assert_eq!(Header::new(42, "thirteenchars", 0), Err(HeaderError::TooLong));
    assert_eq!(Header::new(42, "ééééééééééééé", 0), Err(HeaderError::NotAscii));
    assert!(Header::new(42, "", 0).is_ok());
    assert!(Header::new(42, "twelve_chars", 0).is_ok());
}

#[test]
fn header_decode_errors() {
    let bytes = Vec::<u8>::from(Header::new(42, "whoami", 0).unwrap());
    assert_eq!(Header::try_from(bytes[..23].to_vec()), Err(DecodeError::ShortBuffer));
    assert_eq!(Header::try_from(Vec::new()), Err(DecodeError::ShortBuffer));
    let mut long = bytes.clone();
    long.push(0);
    assert_eq!(Header::try_from(long), Err(DecodeError::Malformed));
    let mut bad = bytes.clone();
    bad[4] = 0x80;
    assert_eq!(Header::try_from(bad), Err(DecodeError::Malformed));
}

#[test]
fn header_trims_only_the_zero_bytes_at_the_end() {
    let mut bytes = Vec::<u8>::from(Header::new(42, "ab", 0).unwrap());
    bytes[4..16].copy_from_slice(b"a\0b\0\0\0\0\0\0\0\0\0");
    assert_eq!(Header::try_from(bytes).unwrap().msg(), "a\0b");
    let padded = Vec::<u8>::from(Header::new(42, "ab\0\0", 5).unwrap());
    assert_eq!(Header::try_from(padded), Ok(Header::new(42, "ab", 5).unwrap()));
    let empty = Vec::<u8>::from(Header::new(42, "", 5).unwrap());
    assert_eq!(Header::try_from(empty), Ok(Header::new(42, "", 5).unwrap()));
}

#[test]
fn header_read_buffer() {
    let mut buffer = Vec::<u8>::from(Header::new(MAGIC, "whoamiack", 0).unwrap());
    buffer.extend_from_slice(&[1, 2, 3]);
    let before = buffer.clone();
    let (header, overload) = Header::read_buffer(&mut buffer).unwrap();
    assert_eq!(header, Header::new(MAGIC, "whoamiack", 0).unwrap());
    assert_eq!(overload, vec![1, 2, 3]);
    assert_eq!(buffer, before);

    let mut short = before[..23].to_vec();
    assert_eq!(Header::read_buffer(&mut short), Err(DecodeError::ShortBuffer));
    let mut bad = before.clone();
    bad[6] = 0xFF;
    assert_eq!(Header::read_buffer(&mut bad), Err(DecodeError::Malformed));
}

#[test]
fn whoami_exact_bytes() {
    let addr = Address::new(431, IpAddress::V4([127, 0, 0, 1]), 10);
    let whoami = Whoami::new(42, addr, vec!["node".to_string(), "network".to_string()]);
    assert_eq!(whoami.byte_size(), 4 + 26 + 1 + 5 + 8);
    let bytes = Vec::<u8>::from(whoami);
    let mut expected = vec![0, 0, 0, 42];
    expected.extend(Vec::<u8>::from(addr));
    expected.push(2);
    expected.extend_from_slice(b"\x04node\x07network");
    assert_eq!(bytes, expected);
}

#[test]
fn whoami_accessors() {
    let addr = Address::new(431, IpAddress::V4([127, 0, 0, 1]), 10);
    let whoami = Whoami::new(42, addr, vec!["node".to_string(), "network".to_string()]);
    assert_eq!(whoami.version(), 42);
    assert_eq!(whoami.from(), addr);
    assert_eq!(whoami.services(), vec!["node".to_string(), "network".to_string()]);
}

#[test]
fn whoami_errors() {
    let addr = Address::new(431, IpAddress::V4([127, 0, 0, 1]), 10);
    let bytes = Vec::<u8>::from(Whoami::new(42, addr, vec!["node".to_string()]));
    for cut in [0usize, 3, 4, 29, 30, 31, 35] {
        assert_eq!(Whoami::try_from(&bytes[..cut]), Err(DecodeError::ShortBuffer));
    }
    let mut bad = bytes.clone();
    bad[33] = 0x80;
    assert_eq!(Whoami::try_from(bad.as_slice()), Err(DecodeError::Malformed));
    // The count asks for more services than there are.
    let mut more = bytes.clone();
    more[30] = 2;
    assert_eq!(Whoami::try_from(more.as_slice()), Err(DecodeError::ShortBuffer));
    // Bytes behind the last service are not looked at.
    let mut longer = bytes.clone();
    longer.extend_from_slice(&[0xFF, 0xFF]);
    assert_eq!(
        Whoami::try_from(longer.as_slice()),
        Ok(Whoami::new(42, addr, vec!["node".to_string()]))
    );
}

#[test]
fn whoami_with_many_services() {
    let addr = Address::new(1, IpAddress::V6([9; 16]), 2);
    let services: Vec<String> = (0..300).map(|i| format!("service{}", i)).collect();
    let whoami = Whoami::new(1, addr, services.clone());
    let size = whoami.byte_size();
    let bytes = Vec::<u8>::from(whoami);
    assert_eq!(bytes.len(), size);
    assert_eq!(&bytes[30..33], &[0xFD, 0x01, 0x2C]);
    let back = Whoami::try_from(bytes.as_slice()).unwrap();
    assert_eq!(back.services(), services);
}

#[test]
fn same_text_compares_texts() {
    assert!(same_text("whoami", "whoami"));
    assert!(!same_text("whoami", "whoamiack"));
    assert!(!same_text("whoami", "whoamj"));
    assert!(same_text("", ""));
}

#[test]
fn text_of_bytes_reads_ascii_only() {
    assert_eq!(text_of_bytes(b"node"), Ok("node".to_string()));
    assert_eq!(text_of_bytes(&[]), Ok(String::new()));
    assert_eq!(text_of_bytes(&[b'a', 0x80]), Err(DecodeError::Malformed));
    assert_eq!(text_of_bytes("é".as_bytes()), Err(DecodeError::Malformed));
}

#[test]
fn big_endian_numbers() {
    assert_eq!(read_be(&[0x12, 0x34, 0x56, 0x78], 1, 2), 0x3456);
    assert_eq!(read_be(&[0xFF; 8], 0, 8), u64::MAX);
    assert_eq!(read_be(&[1, 2, 3], 3, 0), 0);
    let mut out = vec![9];
    write_be(&mut out, 0x0102_0304, 4);
    assert_eq!(out, vec![9, 1, 2, 3, 4]);
    write_be(&mut out, 0x1_0203, 2);
    assert_eq!(out, vec![9, 1, 2, 3, 4, 2, 3]);
}
