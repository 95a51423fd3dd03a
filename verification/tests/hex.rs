use etopa::hex::{hex_decode, hex_encode, HexError};

fn same_as_hex_crate(input: &[u8]) {
    let ours = hex_decode(input);
    let theirs = hex::decode(input);
    match (ours, theirs) {
        (Ok(a), Ok(b)) => assert_eq!(a, b),
        (Err(HexError::OddLength), Err(hex::FromHexError::OddLength)) => {},
        (Err(HexError::InvalidHexCharacter { c, index }), Err(hex::FromHexError::InvalidHexCharacter { c: c2, index: i2 })) => {
            assert_eq!(c, c2);
            assert_eq!(index, i2);
        },
        (a, b) => panic!("different results for {:?}: {:?} and {:?}", input, a, b),
    }
}

#[test]
fn encode_matches_hex_crate() {
    let data: Vec<u8> = (0..=255u8).collect();
    assert_eq!(hex_encode(&data), hex::encode(&data));
    assert_eq!(hex_encode(&[]), "");
    assert_eq!(hex_encode(b"kiwi"), "6b697769");
}

#[test]
fn decode_matches_hex_crate() {
    for input in [
        &b""[..],
        b"00",
        b"6b697769",
        b"6B697769",
        b"abc",
        b"zz",
        b"0z",
        b"a0g1",
        b"123",
        b"\xc3\xa4",
        b"0\xc3",
        b"ff00FFaa",
    ] {
        same_as_hex_crate(input);
    }
}

#[test]
fn decode_errors() {
    assert_eq!(hex_decode(b"abc"), Err(HexError::OddLength));
    assert_eq!(hex_decode(b"0g"), Err(HexError::InvalidHexCharacter { c: 'g', index: 1 }));
    assert_eq!(hex_decode(b"g0"), Err(HexError::InvalidHexCharacter { c: 'g', index: 0 }));
}

#[test]
fn decode_of_encode_gives_back_bytes() {
    for data in [&b""[..], b"\x00", b"hello world", b"\xff\xfe\x80\x7f"] {
        assert_eq!(hex_decode(hex_encode(data).as_bytes()).unwrap(), data.to_vec());
    }
}
