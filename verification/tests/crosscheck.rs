use base64::Engine;
use base64::engine::general_purpose::GeneralPurpose;
use base64::engine::general_purpose::PAD;
use base64::engine::general_purpose::STANDARD;
use pyrsbase64::Altchars;
use pyrsbase64::b64decode;
use pyrsbase64::b64encode;

fn samples() -> Vec<Vec<u8>> {
    let mut out: Vec<Vec<u8>> = vec![
        b"".to_vec(),
        b"f".to_vec(),
        b"fo".to_vec(),
        b"foo".to_vec(),
        b"foob".to_vec(),
        b"fooba".to_vec(),
        b"foobar".to_vec(),
        b"\xfb\xff".to_vec(),
        b"\x00\x01\x02\x03\x04\x05\xfa\xfb\xfc\xfd\xfe\xff".to_vec(),
    ];
    let mut long: Vec<u8> = Vec::new();
    for i in 0..257u16 {
        long.push((i % 256) as u8);
    }
    out.push(long);
    out
}

#[test]
fn encode_matches_reference_standard() {
    for sample in samples() {
        assert_eq!(
            b64encode(&sample, None).unwrap(),
            STANDARD.encode(&sample).into_bytes(),
            "input {:?}",
            sample
        );
    }
}

#[test]
fn encode_matches_reference_url_safe_pair() {
    let engine = GeneralPurpose::new(&base64::alphabet::URL_SAFE, PAD);
    let pair = Altchars::new(b'-', b'_');
    for sample in samples() {
        assert_eq!(
            b64encode(&sample, Some(pair)).unwrap(),
            engine.encode(&sample).into_bytes(),
            "input {:?}",
            sample
        );
    }
}

#[test]
fn strict_decode_matches_reference_on_valid_input() {
    for sample in samples() {
        let encoded = STANDARD.encode(&sample).into_bytes();
        assert_eq!(
            b64decode(&encoded, None, true).unwrap(),
            STANDARD.decode(&encoded).unwrap(),
            "encoded {:?}",
            encoded
        );
    }
}
