use cesu8_stream::codec::{transcode_run, Classification};
use cesu8_stream::engine::{Outcome, WriteEvent};
use cesu8_stream::memory::{transcode_stream, transcode_stream_into, Report};
use cesu8_stream::unit::{Direction, MAX_UNIT_LEN};
use cesu8_stream::variant::Variant;

fn sample_text() -> String {
    let mut text = String::new();
    for round in 0..40u32 {
        text.push_str("plain ");
        text.push('é');
        text.push('€');
        text.push('😀');
        text.push('\u{0}');
        text.push(char::from_u32(0x10000 + round * 0x1234).unwrap());
        text.push('\u{FFFF}');
    }
    text
}

fn run(capacity: usize, direction: Direction, input: &[u8], limits: &[usize]) -> Report {
    transcode_stream(capacity, direction, Variant::Standard, input, limits)
}

#[test]
fn constants() {
    assert_eq!(MAX_UNIT_LEN, 6);
}

#[test]
fn small_buffers_give_the_same_output() {
    let text = sample_text();
    for variant in [Variant::Standard, Variant::Java] {
        let (expected, _) = transcode_run(text.as_bytes(), Direction::Encode, variant);
        let ones = vec![1usize; 3 * text.len()];
        let threes = vec![3usize; 3 * text.len()];
        for capacity in MAX_UNIT_LEN..20 {
            for limits in [&[][..], &ones[..], &threes[..]] {
                let report =
                    transcode_stream(capacity, Direction::Encode, variant, text.as_bytes(), limits);
                assert_eq!(report.output, expected, "capacity {}", capacity);
                assert_eq!(report.outcome, Outcome::Success);
                assert_eq!(report.consumed, text.len());
                let back =
                    transcode_stream(capacity, Direction::Decode, variant, &expected, limits);
                assert_eq!(back.output, text.as_bytes().to_vec(), "capacity {}", capacity);
                assert_eq!(back.outcome, Outcome::Success);
                assert_eq!(back.consumed, expected.len());
            }
        }
    }
}

#[test]
fn unit_behind_a_full_smallest_buffer() {
    let input = [0x61, 0x61, 0x61, 0x61, 0xE2, 0x82, 0xAC];
    let report = run(6, Direction::Encode, &input, &[]);
    assert_eq!(report.output, input.to_vec());
    assert_eq!(report.outcome, Outcome::Success);
    assert_eq!(report.taken, 7);
    assert_eq!(report.consumed, 7);
}

#[test]
fn truncation_is_found_with_small_buffers() {
    let input = [0x61, 0x61, 0x61, 0x61, 0xE2, 0x82];
    for capacity in MAX_UNIT_LEN..20 {
        for limits in [&[][..], &[3, 3][..], &[1, 1, 1, 1, 1, 1][..]] {
            let report = run(capacity, Direction::Encode, &input, limits);
            assert_eq!(report.output, vec![0x61; 4]);
            assert_eq!(report.outcome, Outcome::EncodingFault);
            assert_eq!(report.outcome.exit_code(), 2);
            assert_eq!(report.truncated_at, Some(4));
            assert_eq!(report.taken, 6);
            assert!(report.invalid.is_empty());
        }
    }
    let pair = [0x61, 0xED, 0xA0, 0xBD, 0xED, 0xB8];
    for capacity in MAX_UNIT_LEN..20 {
        let report = run(capacity, Direction::Decode, &pair, &[3, 3]);
        assert_eq!(report.output, vec![0x61]);
        assert_eq!(report.truncated_at, Some(1));
        assert_eq!(report.outcome, Outcome::EncodingFault);
    }
}

#[test]
fn bad_sequence_is_found_with_small_buffers() {
    let mut input = vec![0x61u8; 4];
    input.extend_from_slice(&[0xE2, 0x82, 0x41, 0x62]);
    for capacity in MAX_UNIT_LEN..20 {
        for limits in [&[][..], &[3, 3, 3][..], &[1, 1, 1, 1, 1, 1, 1, 1][..]] {
            let report = run(capacity, Direction::Encode, &input, limits);
            assert_eq!(report.invalid, vec![(4, 2)], "capacity {}", capacity);
            assert_eq!(report.outcome, Outcome::EncodingFault);
            assert_eq!(report.outcome.exit_code(), 2);
            assert_eq!(report.truncated_at, None);
            let mut expected = vec![0x61u8; 4];
            expected.extend_from_slice(&input[6..report.taken]);
            assert_eq!(report.output, expected);
            assert_eq!(report.consumed, report.taken);
        }
    }
}

#[test]
fn one_bad_sequence_far_behind_the_first_window() {
    let mut input = vec![0x61u8; 40];
    input.push(0xFF);
    for capacity in [6usize, 7, 13, 19, 20, 64] {
        let report = run(capacity, Direction::Encode, &input, &[]);
        assert_eq!(report.invalid, vec![(40, 1)], "capacity {}", capacity);
        assert_eq!(report.output, vec![0x61u8; 40]);
        assert_eq!(report.consumed, 41);
        assert_eq!(report.outcome, Outcome::EncodingFault);
    }
}

#[test]
fn empty_stream_succeeds_with_no_output() {
    let report = run(20, Direction::Encode, &[], &[]);
    assert!(report.output.is_empty());
    assert_eq!(report.outcome, Outcome::Success);
    assert!(report.invalid.is_empty());
    assert_eq!(report.truncated_at, None);
    assert_eq!(report.taken, 0);
    assert_eq!(report.consumed, 0);
}

#[test]
fn output_does_not_depend_on_chunk_size() {
    let text = sample_text();
    for variant in [Variant::Standard, Variant::Java] {
        let (expected, verdict) = transcode_run(text.as_bytes(), Direction::Encode, variant);
        assert!(matches!(verdict, Classification::Complete { .. }));
        for capacity in [20usize, 21, 23, 24, 32, 63, 64, 100, 4096, 1 << 16] {
            let report =
                transcode_stream(capacity, Direction::Encode, variant, text.as_bytes(), &[]);
            assert_eq!(report.output, expected, "capacity {}", capacity);
            assert_eq!(report.outcome, Outcome::Success);
            assert_eq!(report.consumed, text.len());
            assert_eq!(report.taken, text.len());

            let back = transcode_stream(capacity, Direction::Decode, variant, &expected, &[]);
            assert_eq!(back.output, text.as_bytes().to_vec(), "capacity {}", capacity);
            assert_eq!(back.outcome, Outcome::Success);
        }
    }
}

#[test]
fn output_does_not_depend_on_how_reads_fall() {
    let text = sample_text();
    let (expected, _) = transcode_run(text.as_bytes(), Direction::Encode, Variant::Standard);
    let ones = vec![1usize; text.len()];
    let twos = vec![2usize; text.len()];
    let mixed: Vec<usize> = (0..text.len()).map(|k| 1 + (k * 7) % 5).collect();
    let zeros = vec![0usize; text.len()];
    for limits in [&ones, &twos, &mixed, &zeros] {
        for capacity in [20usize, 37, 4096] {
            let report = run(capacity, Direction::Encode, text.as_bytes(), limits);
            assert_eq!(report.output, expected);
            assert_eq!(report.outcome, Outcome::Success);
            let back = run(capacity, Direction::Decode, &expected, limits);
            assert_eq!(back.output, text.as_bytes().to_vec());
            assert_eq!(back.outcome, Outcome::Success);
        }
    }
}

#[test]
fn four_byte_character_in_two_reads_of_two_bytes() {
    let input = [0xF0, 0x9F, 0x98, 0x80];
    let at_once = run(4096, Direction::Encode, &input, &[]);
    let in_halves = run(4096, Direction::Encode, &input, &[2, 2]);
    assert_eq!(at_once.output, vec![0xED, 0xA0, 0xBD, 0xED, 0xB8, 0x80]);
    assert_eq!(in_halves.output, at_once.output);
    assert_eq!(in_halves.outcome, Outcome::Success);
    assert_eq!(in_halves.consumed, 4);
}

#[test]
fn unit_across_a_chunk_boundary() {
    for split in 1..4usize {
        let mut input = vec![0x61u8; 20 - split];
        input.extend_from_slice("😀".as_bytes());
        input.extend_from_slice(b"tail");
        let (expected, _) = transcode_run(&input, Direction::Encode, Variant::Standard);
        let chunked = run(20, Direction::Encode, &input, &[]);
        let single = run(input.len().max(20), Direction::Encode, &input, &[]);
        assert_eq!(chunked.output, expected, "split {}", split);
        assert_eq!(single.output, expected);
        assert_eq!(chunked.outcome, Outcome::Success);
    }
    for split in 1..6usize {
        let mut input = vec![0x61u8; 20 - split];
        input.extend_from_slice(&[0xED, 0xA0, 0xBD, 0xED, 0xB8, 0x80]);
        input.extend_from_slice(b"tail");
        let (expected, _) = transcode_run(&input, Direction::Decode, Variant::Standard);
        let chunked = run(20, Direction::Decode, &input, &[]);
        assert_eq!(chunked.output, expected, "split {}", split);
        assert_eq!(chunked.outcome, Outcome::Success);
        assert_eq!(chunked.consumed, input.len());
    }
}

#[test]
fn stream_ending_inside_a_unit_fails() {
    let mut input = b"some text ".to_vec();
    input.extend_from_slice(&[0xF0, 0x9F, 0x98]);
    for capacity in [20usize, 4096] {
        for limits in [&[][..], &[1, 1, 1, 1, 1, 1, 1, 1, 1, 1, 1, 1, 1][..]] {
            let report = run(capacity, Direction::Encode, &input, limits);
            assert_eq!(report.outcome, Outcome::EncodingFault);
            assert_eq!(report.outcome.exit_code(), 2);
            assert_eq!(report.output, b"some text ".to_vec());
            assert_eq!(report.truncated_at, Some(10));
            assert_eq!(report.consumed, 10);
            assert_eq!(report.taken, 13);
            assert!(report.invalid.is_empty());
        }
    }
}

#[test]
fn stream_that_is_only_a_partial_unit_fails() {
    let report = run(20, Direction::Decode, &[0xED, 0xA0, 0xBD, 0xED, 0xB8], &[]);
    assert_eq!(report.outcome, Outcome::EncodingFault);
    assert!(report.output.is_empty());
    assert_eq!(report.truncated_at, Some(0));
}

#[test]
fn one_invalid_unit_between_valid_data() {
    let mut input = b"before".to_vec();
    input.extend_from_slice(&[0xE2, 0x82]);
    input.extend_from_slice(b"after");
    let report = run(4096, Direction::Encode, &input, &[]);
    assert_eq!(report.output, b"beforeafter".to_vec());
    assert_eq!(report.invalid, vec![(6, 2)]);
    assert_eq!(report.outcome, Outcome::EncodingFault);
    assert_eq!(report.truncated_at, None);
    assert_eq!(report.consumed, input.len());
    assert_eq!(report.taken, input.len());
}

#[test]
fn invalid_unit_offset_is_absolute_across_chunks() {
    let mut input = vec![0x61u8; 50];
    input.push(0xFF);
    input.extend_from_slice(b"xyz");
    let report = run(20, Direction::Encode, &input, &[]);
    assert_eq!(report.invalid, vec![(50, 1)]);
    assert_eq!(report.outcome, Outcome::EncodingFault);
    let mut expected = vec![0x61u8; 50];
    expected.extend_from_slice(&input[51..report.taken]);
    assert_eq!(report.output, expected);
    assert_eq!(report.consumed, report.taken);
}

#[test]
fn nothing_is_read_after_an_invalid_unit() {
    let mut input = vec![0xFFu8];
    input.extend_from_slice(&[0x61; 100]);
    let report = run(20, Direction::Encode, &input, &[]);
    assert_eq!(report.taken, 20);
    assert_eq!(report.consumed, 20);
    assert_eq!(report.invalid, vec![(0, 1)]);
    assert_eq!(report.output, vec![0x61u8; 19]);
    assert_eq!(report.outcome, Outcome::EncodingFault);
}

#[test]
fn partial_unit_behind_an_invalid_one_is_a_truncation_too() {
    let input = [0x61, 0xFF, 0x62, 0xE2, 0x82, 0xAC, 0x63];
    let report = run(20, Direction::Encode, &input, &[5]);
    assert_eq!(report.taken, 5);
    assert_eq!(report.invalid, vec![(1, 1)]);
    assert_eq!(report.output, vec![0x61, 0x62]);
    assert_eq!(report.truncated_at, Some(3));
    assert_eq!(report.consumed, 3);
    assert_eq!(report.outcome, Outcome::EncodingFault);
}

#[test]
fn java_streams_round_trip_nul() {
    let input = b"a\0b\0\0c";
    let encoded = transcode_stream(20, Direction::Encode, Variant::Java, input, &[1, 1, 1]);
    assert_eq!(encoded.output, vec![0x61, 0xC0, 0x80, 0x62, 0xC0, 0x80, 0xC0, 0x80, 0x63]);
    let decoded =
        transcode_stream(20, Direction::Decode, Variant::Java, &encoded.output, &[1, 1, 1, 1]);
    assert_eq!(decoded.output, input.to_vec());
    assert_eq!(decoded.outcome, Outcome::Success);
    let plain = transcode_stream(20, Direction::Encode, Variant::Standard, input, &[]);
    assert_eq!(plain.output, input.to_vec());
}

#[test]
fn reads_stop_at_the_round_that_finds_a_bad_sequence() {
    let mut input = b"abc".to_vec();
    input.push(0xFF);
    input.extend_from_slice(&[0x64; 26]);
    let report = run(20, Direction::Encode, &input, &[2, 2, 2]);
    assert_eq!(report.taken, 4);
    assert_eq!(report.consumed, 4);
    assert_eq!(report.output, b"abc".to_vec());
    assert_eq!(report.invalid, vec![(3, 1)]);
    assert_eq!(report.truncated_at, None);
    assert_eq!(report.outcome, Outcome::EncodingFault);
}

#[test]
fn reads_follow_their_limits_and_the_free_space() {
    let input = vec![0x61u8; 45];
    let report = run(20, Direction::Encode, &input, &[3, 100]);
    assert_eq!(report.taken, 45);
    assert_eq!(report.consumed, 45);
    assert_eq!(report.output, input);
    assert_eq!(report.outcome, Outcome::Success);
}

#[test]
fn decoding_a_stream_with_one_bad_sequence() {
    let mut input = "before ".as_bytes().to_vec();
    input.extend_from_slice(&[0xED, 0xA0, 0xBD]);
    input.extend_from_slice(b" after");
    let report = run(64, Direction::Decode, &input, &[]);
    assert_eq!(report.output, b"before  after".to_vec());
    assert_eq!(report.invalid, vec![(7, 3)]);
    assert_eq!(report.consumed, input.len());
    assert_eq!(report.outcome, Outcome::EncodingFault);
    assert_eq!(report.outcome.exit_code(), 2);
}

#[test]
fn same_stream_same_reads_same_report() {
    let mut input = sample_text().into_bytes();
    input.truncate(101);
    input.push(0xF8);
    input.extend_from_slice(b"and then some more");
    let first = run(32, Direction::Encode, &input, &[5, 7, 11]);
    let second = run(32, Direction::Encode, &input, &[5, 7, 11]);
    assert_eq!(first.output, second.output);
    assert_eq!(first.invalid, second.invalid);
    assert_eq!(first.taken, second.taken);
    assert_eq!(first.consumed, second.consumed);
    assert_eq!(first.truncated_at, second.truncated_at);
    assert_eq!(first.outcome, second.outcome);
}

#[test]
fn sink_that_takes_everything_is_the_plain_run() {
    let text = sample_text();
    let plain = run(16, Direction::Encode, text.as_bytes(), &[5, 3]);
    let same = transcode_stream_into(
        16,
        Direction::Encode,
        Variant::Standard,
        text.as_bytes(),
        &[5, 3],
        &[WriteEvent::Done, WriteEvent::Done],
    );
    assert_eq!(same.output, plain.output);
    assert_eq!(same.outcome, Outcome::Success);
    assert_eq!(same.stopped_by, None);
    assert_eq!(plain.stopped_by, None);
    assert_eq!(same.delivered, same.consumed);
    assert_eq!(plain.delivered, text.len());
    assert_eq!(same.taken, plain.taken);
}

#[test]
fn disconnected_sink_ends_a_valid_run_with_success() {
    let text = sample_text();
    let (expected, _) = transcode_run(text.as_bytes(), Direction::Encode, Variant::Standard);
    for capacity in [6usize, 8, 20, 64, 4096] {
        for taken_writes in 0..6usize {
            let mut events = vec![WriteEvent::Done; taken_writes];
            events.push(WriteEvent::Disconnected);
            events.push(WriteEvent::Fault);
            let report = transcode_stream_into(
                capacity,
                Direction::Encode,
                Variant::Standard,
                text.as_bytes(),
                &[],
                &events,
            );
            assert_eq!(report.outcome, Outcome::Success, "capacity {}", capacity);
            assert_eq!(report.outcome.exit_code(), 0);
            if report.delivered == text.len() {
                assert_eq!(report.stopped_by, None);
                assert_eq!(report.output, expected);
            } else {
                assert_eq!(report.stopped_by, Some(WriteEvent::Disconnected));
            }
            if capacity <= 64 {
                assert_eq!(report.stopped_by, Some(WriteEvent::Disconnected));
            }
            assert!(report.invalid.is_empty());
            assert_eq!(report.truncated_at, None);
            assert!(report.delivered <= report.consumed);
            assert!(report.consumed <= report.taken);
            assert_eq!(report.output, expected[..report.output.len()].to_vec());
            let (front, _) = transcode_run(
                &text.as_bytes()[..report.delivered],
                Direction::Encode,
                Variant::Standard,
            );
            assert_eq!(report.output, front);
        }
    }
}

#[test]
fn disconnected_sink_at_the_first_write_takes_nothing() {
    let report = transcode_stream_into(
        64,
        Direction::Encode,
        Variant::Standard,
        b"hello",
        &[],
        &[WriteEvent::Disconnected],
    );
    assert!(report.output.is_empty());
    assert_eq!(report.delivered, 0);
    assert_eq!(report.consumed, 5);
    assert_eq!(report.taken, 5);
    assert_eq!(report.stopped_by, Some(WriteEvent::Disconnected));
    assert_eq!(report.outcome, Outcome::Success);
}

#[test]
fn nothing_is_written_or_read_after_the_sink_is_gone() {
    let input = vec![0x61u8; 100];
    let report = transcode_stream_into(
        10,
        Direction::Encode,
        Variant::Standard,
        &input,
        &[],
        &[WriteEvent::Done, WriteEvent::Done, WriteEvent::Disconnected],
    );
    assert_eq!(report.output, vec![0x61u8; 20]);
    assert_eq!(report.delivered, 20);
    assert_eq!(report.consumed, 30);
    assert_eq!(report.taken, 30);
    assert_eq!(report.outcome, Outcome::Success);
}

#[test]
fn failed_write_is_an_io_fault() {
    let input = vec![0x61u8; 100];
    let report = transcode_stream_into(
        10,
        Direction::Encode,
        Variant::Standard,
        &input,
        &[],
        &[WriteEvent::Done, WriteEvent::Fault, WriteEvent::Done],
    );
    assert_eq!(report.output, vec![0x61u8; 10]);
    assert_eq!(report.stopped_by, Some(WriteEvent::Fault));
    assert_eq!(report.outcome, Outcome::IoFault);
    assert_eq!(report.outcome.exit_code(), 1);
    assert_eq!(report.taken, 20);
}

#[test]
fn failed_write_outweighs_an_encoding_fault() {
    let input = [0x61, 0xFF, 0x62];
    let report = transcode_stream_into(
        64,
        Direction::Encode,
        Variant::Standard,
        &input,
        &[],
        &[WriteEvent::Fault],
    );
    assert_eq!(report.invalid, vec![(1, 1)]);
    assert_eq!(report.outcome, Outcome::IoFault);
    assert!(report.output.is_empty());
    assert_eq!(report.delivered, 0);
    assert_eq!(report.consumed, 2);
}

#[test]
fn disconnected_sink_keeps_an_encoding_fault() {
    let input = [0x61, 0xFF, 0x62];
    let report = transcode_stream_into(
        64,
        Direction::Encode,
        Variant::Standard,
        &input,
        &[],
        &[WriteEvent::Disconnected],
    );
    assert_eq!(report.invalid, vec![(1, 1)]);
    assert_eq!(report.outcome, Outcome::EncodingFault);
    assert_eq!(report.stopped_by, Some(WriteEvent::Disconnected));

    let cut = [0x61, 0xE2, 0x82];
    let report = transcode_stream_into(
        64,
        Direction::Encode,
        Variant::Standard,
        &cut,
        &[],
        &[WriteEvent::Done, WriteEvent::Disconnected],
    );
    assert_eq!(report.output, vec![0x61]);
    assert_eq!(report.truncated_at, Some(1));
    assert_eq!(report.outcome, Outcome::EncodingFault);
    assert_eq!(report.stopped_by, Some(WriteEvent::Disconnected));
    assert_eq!(report.delivered, 1);
}
