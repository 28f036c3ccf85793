use cesu8_stream::codec::{transcode_run, Classification};
use cesu8_stream::unit::{scan_head, Direction, Head};
use cesu8_stream::variant::Variant;

fn encode(bytes: &[u8], variant: Variant) -> (Vec<u8>, Classification) {
    transcode_run(bytes, Direction::Encode, variant)
}

fn decode(bytes: &[u8], variant: Variant) -> (Vec<u8>, Classification) {
    transcode_run(bytes, Direction::Decode, variant)
}

/// The compact encoding of a string, worked out through UTF-16.
fn reference_encoding(text: &str, variant: Variant) -> Vec<u8> {
    let mut out = Vec::new();
    for unit in text.encode_utf16() {
        let u = unit as u32;
        if u == 0 && variant == Variant::Java {
            out.extend_from_slice(&[0xC0, 0x80]);
        } else if u < 0x80 {
            out.push(u as u8);
        } else if u < 0x800 {
            out.push(0xC0 | (u >> 6) as u8);
            out.push(0x80 | (u & 0x3F) as u8);
        } else {
            out.push(0xE0 | (u >> 12) as u8);
            out.push(0x80 | ((u >> 6) & 0x3F) as u8);
            out.push(0x80 | (u & 0x3F) as u8);
        }
    }
    out
}

#[test]
fn ascii_is_unchanged_both_ways() {
    let text = b"plain ascii, nothing else";
    let (out, verdict) = encode(text, Variant::Standard);
    assert_eq!(out, text.to_vec());
    assert_eq!(verdict, Classification::Complete { produced: text.len() });
    let (back, verdict) = decode(text, Variant::Standard);
    assert_eq!(back, text.to_vec());
    assert_eq!(verdict, Classification::Complete { produced: text.len() });
}

#[test]
fn empty_run_is_complete() {
    let (out, verdict) = encode(&[], Variant::Standard);
    assert!(out.is_empty());
    assert_eq!(verdict, Classification::Complete { produced: 0 });
    let (out, verdict) = decode(&[], Variant::Java);
    assert!(out.is_empty());
    assert_eq!(verdict, Classification::Complete { produced: 0 });
}

#[test]
fn two_and_three_byte_units_are_unchanged() {
    let text = "é€ह한".as_bytes();
    let (out, verdict) = encode(text, Variant::Standard);
    assert_eq!(out, text.to_vec());
    assert_eq!(verdict, Classification::Complete { produced: text.len() });
    let (back, _) = decode(&out, Variant::Standard);
    assert_eq!(back, text.to_vec());
}

#[test]
fn four_byte_unit_becomes_surrogate_pair() {
    let (out, verdict) = encode(&[0xF0, 0x9F, 0x98, 0x80], Variant::Standard);
    assert_eq!(out, vec![0xED, 0xA0, 0xBD, 0xED, 0xB8, 0x80]);
    assert_eq!(verdict, Classification::Complete { produced: 6 });
}

#[test]
fn surrogate_pair_becomes_four_byte_unit() {
    let (out, verdict) = decode(&[0xED, 0xA0, 0xBD, 0xED, 0xB8, 0x80], Variant::Standard);
    assert_eq!(out, vec![0xF0, 0x9F, 0x98, 0x80]);
    assert_eq!(verdict, Classification::Complete { produced: 4 });
}

#[test]
fn lowest_and_highest_supplementary_characters() {
    let (out, _) = encode(&[0xF0, 0x90, 0x80, 0x80], Variant::Standard);
    assert_eq!(out, vec![0xED, 0xA0, 0x80, 0xED, 0xB0, 0x80]);
    let (out, _) = encode(&[0xF4, 0x8F, 0xBF, 0xBF], Variant::Standard);
    assert_eq!(out, vec![0xED, 0xAF, 0xBF, 0xED, 0xBF, 0xBF]);
    let (out, _) = decode(&[0xED, 0xA0, 0x80, 0xED, 0xB0, 0x80], Variant::Java);
    assert_eq!(out, vec![0xF0, 0x90, 0x80, 0x80]);
    let (out, _) = decode(&[0xED, 0xAF, 0xBF, 0xED, 0xBF, 0xBF], Variant::Java);
    assert_eq!(out, vec![0xF4, 0x8F, 0xBF, 0xBF]);
}

#[test]
fn nul_is_escaped_under_java_only() {
    let (out, verdict) = encode(&[0x00], Variant::Java);
    assert_eq!(out, vec![0xC0, 0x80]);
    assert_eq!(verdict, Classification::Complete { produced: 2 });
    let (out, verdict) = encode(&[0x00], Variant::Standard);
    assert_eq!(out, vec![0x00]);
    assert_eq!(verdict, Classification::Complete { produced: 1 });
}

#[test]
fn escaped_nul_decodes_under_java_only() {
    let (out, verdict) = decode(&[0x61, 0xC0, 0x80, 0x62], Variant::Java);
    assert_eq!(out, vec![0x61, 0x00, 0x62]);
    assert_eq!(verdict, Classification::Complete { produced: 3 });
    let (out, verdict) = decode(&[0x61, 0xC0, 0x80, 0x62], Variant::Standard);
    assert_eq!(out, vec![0x61]);
    assert_eq!(verdict, Classification::Invalid { valid_len: 1, bad_len: 1 });
}

#[test]
fn zero_byte_is_bad_in_java_text() {
    let (out, verdict) = decode(&[0x61, 0x00, 0x62], Variant::Java);
    assert_eq!(out, vec![0x61]);
    assert_eq!(verdict, Classification::Invalid { valid_len: 1, bad_len: 1 });
    let (out, verdict) = decode(&[0x61, 0x00, 0x62], Variant::Standard);
    assert_eq!(out, vec![0x61, 0x00, 0x62]);
    assert_eq!(verdict, Classification::Complete { produced: 3 });
}

#[test]
fn incomplete_unit_reports_valid_prefix() {
    let (out, verdict) = encode(&[0x61, 0x62, 0xF0, 0x9F, 0x98], Variant::Standard);
    assert_eq!(out, vec![0x61, 0x62]);
    assert_eq!(verdict, Classification::Incomplete { valid_len: 2 });
    let (out, verdict) = decode(&[0x61, 0xED, 0xA0, 0xBD, 0xED, 0xB8], Variant::Standard);
    assert_eq!(out, vec![0x61]);
    assert_eq!(verdict, Classification::Incomplete { valid_len: 1 });
}

#[test]
fn every_proper_prefix_of_a_pair_is_incomplete() {
    let pair = [0xED, 0xA0, 0xBD, 0xED, 0xB8, 0x80];
    for cut in 1..pair.len() {
        let (out, verdict) = decode(&pair[..cut], Variant::Standard);
        assert!(out.is_empty());
        assert_eq!(verdict, Classification::Incomplete { valid_len: 0 });
    }
}

#[test]
fn invalid_unit_reports_prefix_and_length() {
    let (out, verdict) = encode(&[0x61, 0xFF, 0x62], Variant::Standard);
    assert_eq!(out, vec![0x61]);
    assert_eq!(verdict, Classification::Invalid { valid_len: 1, bad_len: 1 });
    let (out, verdict) = encode(&[0xE2, 0x82, 0x41], Variant::Standard);
    assert!(out.is_empty());
    assert_eq!(verdict, Classification::Invalid { valid_len: 0, bad_len: 2 });
    let (out, verdict) = encode(&[0xF0, 0x9F, 0x98, 0x41], Variant::Standard);
    assert!(out.is_empty());
    assert_eq!(verdict, Classification::Invalid { valid_len: 0, bad_len: 3 });
}

#[test]
fn surrogates_are_bad_utf8() {
    let (_, verdict) = encode(&[0xED, 0xA0, 0xBD, 0xED, 0xB8, 0x80], Variant::Standard);
    assert_eq!(verdict, Classification::Invalid { valid_len: 0, bad_len: 1 });
}

#[test]
fn four_byte_units_are_bad_in_the_compact_encoding() {
    let (_, verdict) = decode(&[0xF0, 0x9F, 0x98, 0x80], Variant::Standard);
    assert_eq!(verdict, Classification::Invalid { valid_len: 0, bad_len: 1 });
}

#[test]
fn unpaired_halves_are_bad() {
    let (_, verdict) = decode(&[0xED, 0xA0, 0xBD, 0x41], Variant::Standard);
    assert_eq!(verdict, Classification::Invalid { valid_len: 0, bad_len: 3 });
    let (_, verdict) = decode(&[0xED, 0xA0, 0xBD, 0xED, 0x9F, 0xBF], Variant::Standard);
    assert_eq!(verdict, Classification::Invalid { valid_len: 0, bad_len: 3 });
    let (_, verdict) = decode(&[0xED, 0xA0, 0xBD, 0xED, 0xB8, 0x41], Variant::Standard);
    assert_eq!(verdict, Classification::Invalid { valid_len: 0, bad_len: 3 });
    let (_, verdict) = decode(&[0xED, 0xB8, 0x80], Variant::Standard);
    assert_eq!(verdict, Classification::Invalid { valid_len: 0, bad_len: 1 });
}

#[test]
fn overlong_forms_are_bad() {
    for variant in [Variant::Standard, Variant::Java] {
        let (_, verdict) = encode(&[0xC0, 0x80], variant);
        assert_eq!(verdict, Classification::Invalid { valid_len: 0, bad_len: 1 });
        let (_, verdict) = encode(&[0xC1, 0xBF], variant);
        assert_eq!(verdict, Classification::Invalid { valid_len: 0, bad_len: 1 });
        let (_, verdict) = encode(&[0xE0, 0x80, 0x80], variant);
        assert_eq!(verdict, Classification::Invalid { valid_len: 0, bad_len: 1 });
        let (_, verdict) = decode(&[0xE0, 0x9F, 0xBF], variant);
        assert_eq!(verdict, Classification::Invalid { valid_len: 0, bad_len: 1 });
        let (_, verdict) = decode(&[0xC1, 0x80], variant);
        assert_eq!(verdict, Classification::Invalid { valid_len: 0, bad_len: 1 });
    }
    let (_, verdict) = decode(&[0xC0, 0x81], Variant::Java);
    assert_eq!(verdict, Classification::Invalid { valid_len: 0, bad_len: 1 });
    let (_, verdict) = decode(&[0xC0], Variant::Java);
    assert_eq!(verdict, Classification::Incomplete { valid_len: 0 });
}

#[test]
fn scan_head_tells_the_three_cases() {
    let bytes = [0x41, 0xE2, 0x82, 0xAC, 0xFF, 0xC3];
    assert_eq!(
        scan_head(&bytes, 0, Direction::Encode, Variant::Standard),
        Head::Unit { len: 1 }
    );
    assert_eq!(
        scan_head(&bytes, 1, Direction::Encode, Variant::Standard),
        Head::Unit { len: 3 }
    );
    assert_eq!(
        scan_head(&bytes, 4, Direction::Encode, Variant::Standard),
        Head::Bad { len: 1 }
    );
    assert_eq!(
        scan_head(&bytes, 5, Direction::Encode, Variant::Standard),
        Head::Partial
    );
    assert_eq!(
        scan_head(&bytes, 2, Direction::Decode, Variant::Java),
        Head::Bad { len: 1 }
    );
}

fn agrees_with_std(bytes: &[u8]) {
    let (out, verdict) = encode(bytes, Variant::Standard);
    match std::str::from_utf8(bytes) {
        Ok(text) => {
            assert_eq!(verdict, Classification::Complete { produced: out.len() });
            assert_eq!(out, reference_encoding(text, Variant::Standard));
        }
        Err(e) => {
            let expected = match e.error_len() {
                None => Classification::Incomplete { valid_len: e.valid_up_to() },
                Some(len) => Classification::Invalid { valid_len: e.valid_up_to(), bad_len: len },
            };
            assert_eq!(verdict, expected, "on {:?}", bytes);
            let prefix = std::str::from_utf8(&bytes[..e.valid_up_to()]).unwrap();
            assert_eq!(out, reference_encoding(prefix, Variant::Standard));
        }
    }
}

#[test]
fn utf8_verdicts_agree_with_std_on_short_runs() {
    for a in 0..=255u8 {
        agrees_with_std(&[a]);
        for b in 0..=255u8 {
            agrees_with_std(&[a, b]);
        }
    }
}

#[test]
fn utf8_verdicts_agree_with_std_on_edge_bytes() {
    let edges: [u8; 18] = [
        0x00, 0x41, 0x7F, 0x80, 0x8F, 0x90, 0x9F, 0xA0, 0xAF, 0xB0, 0xBF, 0xC0, 0xC2, 0xE0, 0xED,
        0xF0, 0xF4, 0xFF,
    ];
    for a in 0xC0..=255u8 {
        for &b in edges.iter() {
            for &c in edges.iter() {
                agrees_with_std(&[a, b, c]);
                for &d in edges.iter() {
                    agrees_with_std(&[a, b, c, d]);
                    agrees_with_std(&[0x41, a, b, c, d, 0x42]);
                }
            }
        }
    }
}

#[test]
fn encoding_agrees_with_utf16_for_sampled_characters() {
    let mut text = String::new();
    let mut code: u32 = 0;
    while code <= 0x10FFFF {
        if let Some(ch) = char::from_u32(code) {
            text.push(ch);
        }
        code += 0x1F3;
    }
    for ch in ['\u{0}', '\u{7F}', '\u{80}', '\u{7FF}', '\u{800}', '\u{D7FF}', '\u{E000}',
        '\u{FFFF}', '\u{10000}', '\u{10FFFF}']
    {
        text.push(ch);
    }
    for variant in [Variant::Standard, Variant::Java] {
        let (out, verdict) = encode(text.as_bytes(), variant);
        assert_eq!(out, reference_encoding(&text, variant));
        assert_eq!(verdict, Classification::Complete { produced: out.len() });
    }
}

#[test]
fn round_trip_gives_the_input_back() {
    let texts = [
        "",
        "a",
        "\u{0}",
        "héllo wörld",
        "日本語",
        "😀",
        "a\u{0}b😀c\u{10FFFF}\u{10000}€",
    ];
    for text in texts {
        for variant in [Variant::Standard, Variant::Java] {
            let (encoded, verdict) = encode(text.as_bytes(), variant);
            assert!(matches!(verdict, Classification::Complete { .. }));
            let (decoded, verdict) = decode(&encoded, variant);
            assert_eq!(verdict, Classification::Complete { produced: text.len() });
            assert_eq!(decoded, text.as_bytes().to_vec());
        }
    }
}

#[test]
fn round_trip_over_sampled_characters() {
    let mut text = String::new();
    let mut code: u32 = 0;
    while code <= 0x10FFFF {
        if let Some(ch) = char::from_u32(code) {
            text.push(ch);
        }
        code += 0x3D;
    }
    for variant in [Variant::Standard, Variant::Java] {
        let (encoded, _) = encode(text.as_bytes(), variant);
        let (decoded, verdict) = decode(&encoded, variant);
        assert_eq!(verdict, Classification::Complete { produced: text.len() });
        assert_eq!(decoded, text.as_bytes().to_vec());
        if variant == Variant::Java {
            assert!(!encoded.contains(&0));
        }
    }
}

#[test]
fn direction_from_flag() {
    assert_eq!(Direction::from_decode_flag(true), Direction::Decode);
    assert_eq!(Direction::from_decode_flag(false), Direction::Encode);
}

#[test]
fn variant_from_flag() {
    assert_eq!(Variant::from_java_flag(true), Variant::Java);
    assert_eq!(Variant::from_java_flag(false), Variant::Standard);
}

#[test]
fn compact_bytes_decode_and_encode_back() {
    let samples: [&[u8]; 5] = [
        b"plain",
        &[0xED, 0xA0, 0x80, 0xED, 0xB0, 0x80],
        &[0x61, 0xED, 0xAF, 0xBF, 0xED, 0xBF, 0xBF, 0x62],
        &[0xE2, 0x82, 0xAC, 0xC3, 0xA9, 0xED, 0x9F, 0xBF, 0xEE, 0x80, 0x80],
        &[0xEF, 0xBF, 0xBF, 0xED, 0xA0, 0xBD, 0xED, 0xB8, 0x80],
    ];
    for bytes in samples {
        for variant in [Variant::Standard, Variant::Java] {
            let (decoded, verdict) = decode(bytes, variant);
            assert!(matches!(verdict, Classification::Complete { .. }));
            assert!(std::str::from_utf8(&decoded).is_ok());
            let (encoded, verdict) = encode(&decoded, variant);
            assert_eq!(verdict, Classification::Complete { produced: bytes.len() });
            assert_eq!(encoded, bytes.to_vec());
        }
    }
    let (decoded, _) = decode(&[0xC0, 0x80, 0x61], Variant::Java);
    assert_eq!(decoded, vec![0x00, 0x61]);
    let (encoded, _) = encode(&decoded, Variant::Java);
    assert_eq!(encoded, vec![0xC0, 0x80, 0x61]);
}

#[test]
fn cutting_at_a_unit_boundary_changes_nothing() {
    let text = "a😀é€\u{10FFFF}z";
    let bytes = text.as_bytes();
    let (whole, _) = encode(bytes, Variant::Java);
    for (cut, _) in text.char_indices() {
        let (mut front, verdict) = encode(&bytes[..cut], Variant::Java);
        assert!(matches!(verdict, Classification::Complete { .. }));
        let (back, _) = encode(&bytes[cut..], Variant::Java);
        front.extend_from_slice(&back);
        assert_eq!(front, whole);
    }
}

#[test]
fn verdict_behind_a_well_formed_front_moves_with_it() {
    let front = "é😀".as_bytes();
    let mut bytes = front.to_vec();
    bytes.extend_from_slice(&[0x61, 0xE2, 0x82, 0x41]);
    let (out, verdict) = encode(&bytes, Variant::Standard);
    assert_eq!(verdict, Classification::Invalid { valid_len: front.len() + 1, bad_len: 2 });
    let (expected, _) = encode(&bytes[..front.len() + 1], Variant::Standard);
    assert_eq!(out, expected);
}
