use pyrsbase64::Altchars;
use pyrsbase64::CodecError;
use pyrsbase64::ConfigError;
use pyrsbase64::DecodeError;
use pyrsbase64::SizeError;
use pyrsbase64::b64decode;
use pyrsbase64::b64encode;
use pyrsbase64::build_alphabet;
use pyrsbase64::encodebytes;
use pyrsbase64::encoded_length;

#[test]
fn encode_one_byte() {
    assert_eq!(b64encode(b"f", None).unwrap(), b"Zg==".to_vec());
}

#[test]
fn encode_two_bytes() {
    assert_eq!(b64encode(b"fo", None).unwrap(), b"Zm8=".to_vec());
}

#[test]
fn encode_three_bytes() {
    assert_eq!(b64encode(b"foo", None).unwrap(), b"Zm9v".to_vec());
}

#[test]
fn encode_empty_is_empty() {
    assert_eq!(b64encode(b"", None).unwrap(), Vec::<u8>::new());
}

#[test]
fn encode_longer_input() {
    assert_eq!(
        b64encode(b"hello world", None).unwrap(),
        b"aGVsbG8gd29ybGQ=".to_vec()
    );
}

#[test]
fn decode_strict_basic() {
    assert_eq!(b64decode(b"Zm9v", None, true).unwrap(), b"foo".to_vec());
    assert_eq!(b64decode(b"Zg==", None, true).unwrap(), b"f".to_vec());
    assert_eq!(b64decode(b"Zm8=", None, true).unwrap(), b"fo".to_vec());
    assert_eq!(b64decode(b"", None, true).unwrap(), Vec::<u8>::new());
}

#[test]
fn decode_with_altchars_when_no_sensitive_symbol() {
    // `Zm9v` holds no symbol the pair substitutes, so the custom alphabet
    // decodes it identically.
    let pair = Altchars::new(b'-', b'_');
    assert_eq!(
        b64decode(b"Zm9v", Some(pair), true).unwrap(),
        b"foo".to_vec()
    );
}

#[test]
fn encode_differs_at_substituted_positions() {
    let standard = b64encode(b"\xfb\xff", None).unwrap();
    let custom = b64encode(b"\xfb\xff", Some(Altchars::new(b'-', b'_'))).unwrap();
    assert_eq!(standard, b"+/8=".to_vec());
    assert_eq!(custom, b"-_8=".to_vec());
    assert_ne!(standard, custom);
}

#[test]
fn defaulting_matches_explicit_standard_pair() {
    let inputs: [&[u8]; 5] = [b"", b"f", b"fo", b"foo", b"\xfb\xff\x00\x10"];
    for input in inputs {
        assert_eq!(
            b64encode(input, None).unwrap(),
            b64encode(input, Some(Altchars::new(b'+', b'/'))).unwrap()
        );
    }
}

#[test]
fn encoded_length_law() {
    let data = b"abcdefghij";
    for n in 0..=data.len() {
        let out = b64encode(&data[..n], None).unwrap();
        let expected = 4 * ((n + 2) / 3);
        assert_eq!(out.len(), expected);
    }
    assert_eq!(b64encode(b"", None).unwrap().len(), 0);
}

#[test]
fn padding_law() {
    let data = b"abcdefghij";
    for n in 0..=data.len() {
        let out = b64encode(&data[..n], None).unwrap();
        let pads = out.iter().rev().take_while(|&&b| b == b'=').count();
        let expected = match n % 3 {
            0 => 0,
            1 => 2,
            _ => 1,
        };
        assert_eq!(pads, expected, "input length {}", n);
    }
}

#[test]
fn permissive_tolerates_noise() {
    assert_eq!(
        b64decode(b"aGVs\nbG8gd2 9ybGQ=\n", None, false).unwrap(),
        b"hello world".to_vec()
    );
}

#[test]
fn permissive_of_noise_only_is_empty() {
    assert_eq!(b64decode(b" \n\t", None, false).unwrap(), Vec::<u8>::new());
}

#[test]
fn strict_rejects_noise() {
    assert_eq!(
        b64decode(b"aGVs\nbG8=", None, true),
        Err(CodecError::Decode(DecodeError::InvalidByte {
            position: 4,
            value: b'\n',
        }))
    );
}

#[test]
fn strict_reports_first_noise_even_after_padding() {
    assert_eq!(
        b64decode(b"Zg==\n", None, true),
        Err(CodecError::Decode(DecodeError::InvalidByte {
            position: 4,
            value: b'\n',
        }))
    );
}

#[test]
fn strict_rejects_bad_length() {
    assert_eq!(
        b64decode(b"Zm9", None, true),
        Err(CodecError::Decode(DecodeError::InvalidLength))
    );
}

#[test]
fn permissive_keeps_structural_errors() {
    // Filtering drops nothing here, and the remainder is still too short.
    assert_eq!(
        b64decode(b"Zm9", None, false),
        Err(CodecError::Decode(DecodeError::InvalidLength))
    );
}

#[test]
fn strict_rejects_misplaced_padding() {
    assert_eq!(
        b64decode(b"Zg=v", None, true),
        Err(CodecError::Decode(DecodeError::InvalidPadding))
    );
}

#[test]
fn strict_rejects_stray_bits_under_two_pads() {
    // `h` stands for 33, whose low four bits the two padding bytes would
    // have to cover.
    assert_eq!(
        b64decode(b"Zh==", None, true),
        Err(CodecError::Decode(DecodeError::InvalidByte {
            position: 1,
            value: b'h',
        }))
    );
}

#[test]
fn strict_rejects_stray_bits_under_one_pad() {
    // `9` stands for 61, whose low two bits the padding byte would have to
    // cover.
    assert_eq!(
        b64decode(b"Zm9=", None, true),
        Err(CodecError::Decode(DecodeError::InvalidByte {
            position: 2,
            value: b'9',
        }))
    );
}

#[test]
fn permissive_filters_by_active_alphabet() {
    // Under the pair `-`, `_` the bytes `+` and `/` are not symbols, so the
    // permissive decoder drops them; the remainder `8=` is then too short.
    let pair = Altchars::new(b'-', b'_');
    assert_eq!(
        b64decode(b"+/8=", Some(pair), false),
        Err(CodecError::Decode(DecodeError::InvalidLength))
    );
    // The pair's own symbols decode.
    assert_eq!(
        b64decode(b"-_8=", Some(pair), false).unwrap(),
        b"\xfb\xff".to_vec()
    );
}

#[test]
fn alphanumeric_altchars_collide() {
    assert_eq!(
        build_alphabet(Some(Altchars::new(b'A', b'B'))).err(),
        Some(ConfigError::InvalidAlphabet {
            plus: b'A',
            slash: b'B',
        })
    );
    assert_eq!(
        b64encode(b"foo", Some(Altchars::new(b'A', b'B'))),
        Err(CodecError::Config(ConfigError::InvalidAlphabet {
            plus: b'A',
            slash: b'B',
        }))
    );
}

#[test]
fn duplicate_altchars_collide() {
    assert!(build_alphabet(Some(Altchars::new(b'-', b'-'))).is_err());
}

#[test]
fn padding_byte_as_altchar_collides() {
    assert!(build_alphabet(Some(Altchars::new(b'=', b'_'))).is_err());
    assert!(build_alphabet(Some(Altchars::new(b'-', b'='))).is_err());
}

#[test]
fn unusual_altchars_are_accepted() {
    // The system restricts altchars only against duplicates and collisions.
    let pair = Altchars::new(b' ', b'\t');
    let encoded = b64encode(b"\xfb\xff", Some(pair)).unwrap();
    assert_eq!(encoded, b" \t8=".to_vec());
    assert_eq!(
        b64decode(&encoded, Some(pair), true).unwrap(),
        b"\xfb\xff".to_vec()
    );
}

#[test]
fn altchars_from_bytes_checks_length() {
    assert_eq!(
        Altchars::from_bytes(b"-_").unwrap(),
        Altchars::new(b'-', b'_')
    );
    assert_eq!(
        Altchars::from_bytes(b"-"),
        Err(ConfigError::InvalidAltcharsLength)
    );
    assert_eq!(
        Altchars::from_bytes(b"-_x"),
        Err(ConfigError::InvalidAltcharsLength)
    );
}

#[test]
fn altchars_accessors() {
    let pair = Altchars::new(b'-', b'_');
    assert_eq!(pair.plus(), b'-');
    assert_eq!(pair.slash(), b'_');
    let standard = Altchars::default();
    assert_eq!(standard.plus(), b'+');
    assert_eq!(standard.slash(), b'/');
}

#[test]
fn encoded_length_values() {
    assert_eq!(encoded_length(0).unwrap(), 0);
    assert_eq!(encoded_length(1).unwrap(), 4);
    assert_eq!(encoded_length(2).unwrap(), 4);
    assert_eq!(encoded_length(3).unwrap(), 4);
    assert_eq!(encoded_length(4).unwrap(), 8);
    assert_eq!(encoded_length(300).unwrap(), 400);
}

#[test]
fn encoded_length_overflow() {
    assert_eq!(encoded_length(usize::MAX), Err(SizeError::Overflow));
}

#[test]
fn encodebytes_appends_newline() {
    assert_eq!(encodebytes(b"foo").unwrap(), b"Zm9v\n".to_vec());
    assert_eq!(encodebytes(b"f").unwrap(), b"Zg==\n".to_vec());
    assert_eq!(encodebytes(b"").unwrap(), b"\n".to_vec());
}

#[test]
fn round_trip_strict() {
    let samples: [&[u8]; 7] = [
        b"",
        b"a",
        b"ab",
        b"abc",
        b"\x00\x01\x02\x03\xfe\xff",
        b"The quick brown fox jumps over the lazy dog",
        b"\xff\xff\xff",
    ];
    for sample in samples {
        let encoded = b64encode(sample, None).unwrap();
        assert_eq!(b64decode(&encoded, None, true).unwrap(), sample.to_vec());
    }
}

#[test]
fn round_trip_with_altchars() {
    let pair = Altchars::new(b'-', b'_');
    let samples: [&[u8]; 4] = [b"", b"\xfb\xff", b"\xff\xef\xbe", b"binary\x00data\xff"];
    for sample in samples {
        let encoded = b64encode(sample, Some(pair)).unwrap();
        assert_eq!(
            b64decode(&encoded, Some(pair), true).unwrap(),
            sample.to_vec()
        );
    }
}
