use fishfinder::crc::{modes_checksum, modes_repair_single_bit};
use fishfinder::mode_s::{Frame, FrameDecoder};

const CANONICAL: [u8; 14] = [
    0x8D, 0x48, 0x40, 0xD6, 0x20, 0x2C, 0xC3, 0x71, 0xC3, 0x2C, 0xE0, 0x57, 0x60, 0x98,
];

fn preamble() -> Vec<u8> {
    vec![100, 0, 100, 0, 0, 0, 0, 100, 0, 100, 0, 0, 0, 0, 0, 0]
}

/// PPM-encodes 112 bits (the frame MSB-first, zero-padded) at the
/// given pulse amplitude.
fn encode_cells(frame: &[u8], amp: u8) -> Vec<u8> {
    let mut out = Vec::new();
    for i in 0..112 {
        let bit = if i / 8 < frame.len() {
            (frame[i / 8] >> (7 - i % 8)) & 1
        } else {
            0
        };
        if bit == 1 {
            out.push(amp);
            out.push(0);
        } else {
            out.push(0);
            out.push(amp);
        }
    }
    out
}

fn make_trace(frame: &[u8], amp: u8) -> Vec<u8> {
    let mut t = preamble();
    t.extend(encode_cells(frame, amp));
    t
}

fn flip_bit(frame: &[u8], j: usize) -> Vec<u8> {
    let mut g = frame.to_vec();
    g[j / 8] ^= 1 << (7 - j % 8);
    g
}

#[test]
fn needs_more_data_at_239_samples() {
    let mut trace = make_trace(&CANONICAL, 100);
    trace.truncate(239);
    let d = FrameDecoder::new();
    let (frame, cursor) = d.decode(&trace, 0);
    assert!(frame.is_none());
    assert_eq!(cursor, 0);
}

#[test]
fn preamble_shape_failure_advances_one() {
    let trace: Vec<u8> = vec![0; 240];
    let d = FrameDecoder::new();
    let (frame, cursor) = d.decode(&trace, 0);
    assert!(frame.is_none());
    assert_eq!(cursor, 1);
}

#[test]
fn canonical_frame_is_decoded_valid() {
    let trace = make_trace(&CANONICAL, 100);
    let d = FrameDecoder::new();
    let (frame, cursor) = d.decode(&trace, 0);
    assert_eq!(cursor, 240);
    let frame = frame.expect("one frame");
    assert_eq!(frame.0, CANONICAL.to_vec());
    assert!(frame.valid());
}

#[test]
fn crc_of_canonical_matches_trailing_bits() {
    let f = CANONICAL.to_vec();
    let crc = modes_checksum(&f);
    let trailing = ((f[11] as u32) << 16) | ((f[12] as u32) << 8) | f[13] as u32;
    assert_eq!(crc, trailing);
    assert_eq!(crc, 0x576098);
}

#[test]
fn corrupted_bit_37_is_repaired() {
    let corrupted = flip_bit(&CANONICAL, 37);
    let trace = make_trace(&corrupted, 100);
    let d = FrameDecoder::new();
    let (frame, cursor) = d.decode(&trace, 0);
    assert_eq!(cursor, 240);
    let frame = frame.expect("repaired frame");
    assert_eq!(frame.0, CANONICAL.to_vec());
    assert!(frame.valid());
}

#[test]
fn repair_differs_in_exactly_one_bit() {
    let corrupted = flip_bit(&CANONICAL, 37);
    let repaired = Frame(corrupted.clone()).try_repair().expect("repairable");
    let mut diff = 0;
    for i in 0..14 {
        diff += (repaired.0[i] ^ corrupted[i]).count_ones();
    }
    assert_eq!(diff, 1);
    assert!(repaired.valid());
    assert_eq!(repaired.0, CANONICAL.to_vec());
}

#[test]
fn two_bit_corruption_is_not_repairable() {
    let corrupted = flip_bit(&flip_bit(&CANONICAL, 37), 53);
    assert!(modes_repair_single_bit(&corrupted).is_none());
    let trace = make_trace(&corrupted, 100);
    let d = FrameDecoder::new();
    let (frame, cursor) = d.decode(&trace, 0);
    assert!(frame.is_none());
    assert_eq!(cursor, 240);
}

#[test]
fn squelch_mean_15_drops_frame() {
    // 104 cells at amplitude 8 and 8 cells at amplitude 1:
    // sum 840, mean 840 / 56 == 15.
    let mut trace = preamble();
    for i in 0..112 {
        let amp = if i < 8 { 1 } else { 8 };
        let bit = (CANONICAL[i / 8] >> (7 - i % 8)) & 1;
        if bit == 1 {
            trace.push(amp);
            trace.push(0);
        } else {
            trace.push(0);
            trace.push(amp);
        }
    }
    let d = FrameDecoder::new();
    let (frame, cursor) = d.decode(&trace, 0);
    assert!(frame.is_none());
    assert_eq!(cursor, 240);
}

#[test]
fn squelch_mean_16_passes_frame() {
    // All 112 cells at amplitude 8: sum 896, mean 896 / 56 == 16.
    let trace = make_trace(&CANONICAL, 8);
    let d = FrameDecoder::new();
    let (frame, _) = d.decode(&trace, 0);
    let frame = frame.expect("frame passes at squelch 16");
    assert_eq!(frame.0, CANONICAL.to_vec());
}

#[test]
fn replay_of_ten_thousand_frames_decodes_them_all() {
    let mut trace = Vec::with_capacity(240 * 10_000);
    for _ in 0..10_000 {
        trace.extend(make_trace(&CANONICAL, 100));
    }
    let d = FrameDecoder::new();
    let mut cursor = 0usize;
    let mut valid = 0usize;
    loop {
        let (frame, next) = d.decode(&trace, cursor);
        match frame {
            Some(f) => {
                assert!(f.valid());
                let m = f.parse().expect("canonical frame parses");
                assert!(m.icao < 0x1000000);
                assert_eq!(m.icao, 0x4840D6);
                valid += 1;
            }
            None => {
                cursor = next;
                break;
            }
        }
        cursor = next;
    }
    assert_eq!(valid, 10_000);
    assert!(valid * 100 >= 10_000 * 95);
}
