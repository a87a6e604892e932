use assembler::{hex_decode, hex_encode};

#[test]
fn test_hex_decode() {
    assert_eq!(hex_decode("26FDC4A9".as_bytes()), Ok(654165161));
    assert_eq!(hex_decode("0x1FFAB35FDC04".as_bytes()), Ok(35161611688964));
    assert_eq!(hex_decode("0".as_bytes()), Ok(0));
    assert_eq!(hex_decode("".as_bytes()), Err(()));
}

#[test]
fn test_hex_encode() {
    assert_eq!(hex_encode(93482348), "05926D6C".as_bytes());
    assert_eq!(hex_encode(0), "00000000".as_bytes());
    assert_eq!(hex_encode(10010101), "0098BDF5".as_bytes());
}

#[test]
fn hex_encode_is_upper_case_and_most_significant_first() {
    assert_eq!(hex_encode(0xABCDEF01), "ABCDEF01".as_bytes());
    assert_eq!(hex_encode(u32::MAX), "FFFFFFFF".as_bytes());
    assert_eq!(hex_encode(1), "00000001".as_bytes());
    assert_eq!(hex_encode(0x1000_0000), "10000000".as_bytes());
}

#[test]
fn hex_decode_reads_both_cases() {
    assert_eq!(hex_decode(b"abcdef"), Ok(0xABCDEF));
    assert_eq!(hex_decode(b"ABCDEF"), Ok(0xABCDEF));
    assert_eq!(hex_decode(b"0xaBcD"), Ok(0xABCD));
}

#[test]
fn hex_decode_refuses_what_is_no_digit() {
    assert_eq!(hex_decode(b"12g4"), Err(()));
    assert_eq!(hex_decode(b" 12"), Err(()));
    assert_eq!(hex_decode(b"0X12"), Err(()));
    assert_eq!(hex_decode(b"-1"), Err(()));
}

#[test]
fn hex_decode_takes_the_prefix_only_in_front() {
    assert_eq!(hex_decode(b"0x"), Ok(0));
    assert_eq!(hex_decode(b"1x2"), Err(()));
    assert_eq!(hex_decode(b"x"), Err(()));
    assert_eq!(hex_decode(b"0x0x1"), Err(()));
    assert_eq!(hex_decode(b"00x1"), Err(()));
}

#[test]
fn hex_decode_loses_digits_beyond_the_width() {
    let mut text = String::from("0x1");
    for _ in 0..(usize::BITS / 4) {
        text.push('0');
    }
    assert_eq!(hex_decode(text.as_bytes()), Ok(0));
    let mut ones = String::from("F");
    for _ in 0..(usize::BITS / 4) {
        ones.push('F');
    }
    assert_eq!(hex_decode(ones.as_bytes()), Ok(usize::MAX));
}

#[test]
fn hex_round_trip() {
    let values: [u32; 9] =
        [0, 1, 9, 10, 15, 16, 0x7E00_0005, 0x8000_0000, u32::MAX];
    for v in values {
        assert_eq!(hex_decode(&hex_encode(v)), Ok(v as usize));
    }
    let mut v: u32 = 1;
    for _ in 0..200 {
        v = v.wrapping_mul(1664525).wrapping_add(1013904223);
        assert_eq!(hex_decode(&hex_encode(v)), Ok(v as usize));
    }
}
