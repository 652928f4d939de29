use base45::alphabet::TABLE;
use base45::{decode, encode, encode_from_buffer, DecodeError};

/// Bytes that look arbitrary, the same on every run.
fn sample(len: usize, seed: u32) -> Vec<u8> {
    let mut state = seed.wrapping_mul(2654435761).wrapping_add(len as u32);
    let mut out = Vec::with_capacity(len);
    for _ in 0..len {
        state = state.wrapping_mul(1664525).wrapping_add(1013904223);
        out.push((state >> 24) as u8);
    }
    out
}

fn expected_encoded_len(n: usize) -> usize {
    3 * (n / 2) + if n % 2 == 1 { 2 } else { 0 }
}

fn expected_decoded_len(m: usize) -> usize {
    2 * (m / 3) + if m % 3 == 2 { 1 } else { 0 }
}

#[test]
fn encode_empty() {
    assert_eq!(encode(&[]), "");
}

#[test]
fn decode_empty() {
    assert_eq!(decode(&[]), Ok(vec![]));
}

#[test]
fn encode_single_bytes_exact() {
    assert_eq!(encode(&[0]), "00");
    assert_eq!(encode(&[1]), "10");
    assert_eq!(encode(&[44]), ":0");
    assert_eq!(encode(&[45]), "01");
    assert_eq!(encode(&[0xFF]), "U5");
}

#[test]
fn encode_pairs_exact() {
    assert_eq!(encode(&[0, 0]), "000");
    assert_eq!(encode(&[0, 45]), "010");
    assert_eq!(encode(&[1, 0]), "V50");
    assert_eq!(encode(&[0x07, 0xE9]), "001");
    assert_eq!(encode(&[0xFF, 0xFF]), "FGW");
}

#[test]
fn decode_groups_exact() {
    assert_eq!(decode(b"00"), Ok(vec![0]));
    assert_eq!(decode(b"U5"), Ok(vec![0xFF]));
    assert_eq!(decode(b"000"), Ok(vec![0, 0]));
    assert_eq!(decode(b"V50"), Ok(vec![1, 0]));
    assert_eq!(decode(b"001"), Ok(vec![0x07, 0xE9]));
    assert_eq!(decode(b"FGW"), Ok(vec![0xFF, 0xFF]));
    assert_eq!(decode(b"BB8"), Ok(vec![0x41, 0x42]));
}

#[test]
fn decode_all_ff_vector() {
    assert_eq!(decode(b"FGWFGWFGW"), Ok(vec![0xFF; 6]));
    assert_eq!(encode(&[0xFF; 6]), "FGWFGWFGW");
}

#[test]
fn decode_hello_bytes() {
    assert_eq!(decode(b"%69 VD92EX0"), Ok(b"Hello!!".to_vec()));
}

#[test]
fn roundtrip_every_single_byte() {
    for b in 0u8..=255 {
        let text = encode(&[b]);
        assert_eq!(text.len(), 2);
        assert_eq!(decode(text.as_bytes()), Ok(vec![b]));
    }
}

#[test]
fn roundtrip_every_pair() {
    for hi in 0u8..=255 {
        for lo in 0u8..=255 {
            let text = encode(&[hi, lo]);
            assert_eq!(text.len(), 3);
            assert_eq!(decode(text.as_bytes()), Ok(vec![hi, lo]));
        }
    }
}

#[test]
fn roundtrip_sampled_buffers() {
    for len in 0..200 {
        for seed in 0..5 {
            let bytes = sample(len, seed);
            let text = encode(&bytes);
            assert_eq!(decode(text.as_bytes()), Ok(bytes));
        }
    }
}

#[test]
fn encoded_length_law() {
    for len in 0..300 {
        let text = encode(&sample(len, 7));
        assert_eq!(text.len(), expected_encoded_len(len));
        assert_eq!(text.chars().count(), expected_encoded_len(len));
    }
    assert_eq!(encode(&[0; 7]).len(), 11);
    assert_eq!(encode(&[0; 8]).len(), 12);
}

#[test]
fn decoded_length_law() {
    for len in 0..300 {
        let text = encode(&sample(len, 11));
        let bytes = decode(text.as_bytes()).unwrap();
        assert_eq!(bytes.len(), expected_decoded_len(text.len()));
    }
    assert_eq!(decode(b"00000").unwrap().len(), 3);
    assert_eq!(decode(b"000000").unwrap().len(), 4);
}

#[test]
fn encoding_stays_in_the_alphabet() {
    for len in 0..200 {
        let text = encode(&sample(len, 3));
        assert!(text.is_ascii());
        for c in text.bytes() {
            assert!(TABLE.contains(&c));
        }
    }
}

#[test]
fn rejects_lowercase() {
    assert_eq!(decode(b"a"), Err(DecodeError));
    assert_eq!(decode(b"aa"), Err(DecodeError));
    assert_eq!(decode(b"bb8"), Err(DecodeError));
    assert_eq!(decode(b"BB8bb8"), Err(DecodeError));
    assert_eq!(decode(b"BB8BBa"), Err(DecodeError));
}

#[test]
fn rejects_tilde() {
    assert_eq!(decode(b"~"), Err(DecodeError));
    assert_eq!(decode(b"~~"), Err(DecodeError));
    assert_eq!(decode(b"B~8"), Err(DecodeError));
    assert_eq!(decode(b"BB8~0"), Err(DecodeError));
    assert_eq!(decode(b"BB80~"), Err(DecodeError));
}

#[test]
fn rejects_every_byte_outside_the_alphabet() {
    let mut outside = 0;
    for v in 0u8..=255 {
        if TABLE.contains(&v) {
            continue;
        }
        outside += 1;
        for at in 0..3 {
            let mut text = *b"000";
            text[at] = v;
            assert_eq!(decode(&text), Err(DecodeError));
        }
        for at in 0..2 {
            let mut text = *b"00";
            text[at] = v;
            assert_eq!(decode(&text), Err(DecodeError));
        }
        for at in 0..5 {
            let mut text = *b"BB8U5";
            text[at] = v;
            assert_eq!(decode(&text), Err(DecodeError));
        }
    }
    assert_eq!(outside, 256 - 45);
}

#[test]
fn rejects_non_ascii_text() {
    assert_eq!(decode("BB8©".as_bytes()), Err(DecodeError));
    assert_eq!(decode(&[0xFF, 0x30, 0x30]), Err(DecodeError));
}

#[test]
fn rejects_a_last_group_of_one() {
    assert_eq!(decode(b"0"), Err(DecodeError));
    assert_eq!(decode(b":"), Err(DecodeError));
    assert_eq!(decode(b"BB8B"), Err(DecodeError));
    assert_eq!(decode(b"BB8BB8B"), Err(DecodeError));
    for len in 0..40 {
        let text = vec![b'0'; len];
        assert_eq!(decode(&text).is_err(), len % 3 == 1);
    }
}

#[test]
fn rejects_a_group_above_sixteen_bits() {
    assert_eq!(decode(b"FGW"), Ok(vec![0xFF, 0xFF]));
    assert_eq!(decode(b"GGW"), Err(DecodeError));
    assert_eq!(decode(b"00X"), Err(DecodeError));
    assert_eq!(decode(b":::"), Err(DecodeError));
    assert_eq!(decode(b"BB8GGW"), Err(DecodeError));
    assert_eq!(decode(b"GGWBB8"), Err(DecodeError));
    // 65536 up to 65792 are out of range as well.
    assert_eq!(decode(b"$LW"), Err(DecodeError));
}

#[test]
fn rejects_a_last_pair_above_a_byte() {
    assert_eq!(decode(b"U5"), Ok(vec![0xFF]));
    assert_eq!(decode(b"V5"), Err(DecodeError));
    assert_eq!(decode(b"06"), Err(DecodeError));
    assert_eq!(decode(b"::"), Err(DecodeError));
    assert_eq!(decode(b"BB8V5"), Err(DecodeError));
    assert_eq!(decode(b"BB8U5"), Ok(vec![0x41, 0x42, 0xFF]));
}

#[test]
fn every_triple_decodes_iff_in_range() {
    for e in 0..45u32 {
        for d in 0..45u32 {
            for c in 0..45u32 {
                let text = [TABLE[c as usize], TABLE[d as usize], TABLE[e as usize]];
                let v = c + d * 45 + e * 2025;
                if v <= 0xFFFF {
                    let bytes = vec![(v >> 8) as u8, (v & 0xFF) as u8];
                    assert_eq!(decode(&text), Ok(bytes.clone()));
                    assert_eq!(encode(&bytes).as_bytes(), &text);
                } else {
                    assert_eq!(decode(&text), Err(DecodeError));
                }
            }
        }
    }
}

#[test]
fn every_pair_decodes_iff_in_range() {
    for d in 0..45u32 {
        for c in 0..45u32 {
            let text = [TABLE[c as usize], TABLE[d as usize]];
            let v = c + d * 45;
            if v <= 0xFF {
                assert_eq!(decode(&text), Ok(vec![v as u8]));
                assert_eq!(encode(&[v as u8]).as_bytes(), &text);
            } else {
                assert_eq!(decode(&text), Err(DecodeError));
            }
        }
    }
}

#[test]
fn encode_from_buffer_is_encode() {
    assert_eq!(
        encode_from_buffer(&[72, 101, 108, 108, 111, 33, 33]),
        "%69 VD92EX0"
    );
    for len in 0..50 {
        let bytes = sample(len, 23);
        assert_eq!(encode_from_buffer(&bytes), encode(&bytes));
    }
}

#[test]
fn decode_error_message() {
    assert_eq!(DecodeError.message(), "Invalid base45 string");
    let err = decode(b":::").unwrap_err();
    assert_eq!(err.message(), "Invalid base45 string");
}

#[test]
fn decode_error_is_a_plain_value() {
    let err = DecodeError;
    let copy = err;
    assert_eq!(err, copy);
    assert_eq!(err.clone(), DecodeError);
    assert_eq!(format!("{:?}", err), "DecodeError");
}
