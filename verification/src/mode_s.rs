//! Mode-S frame detection and demodulation: a sliding preamble search
//! over a magnitude-sample buffer, pulse-position bit slicing, bit
//! packing, a squelch check, CRC-24 validation and single-bit repair.
//!
//! The decoder is a pure function of the buffer and a cursor: it either
//! asks for more data, or emits at most one CRC-valid frame and says how
//! far the cursor moved.

use vstd::prelude::*;

use crate::crc::{check_frame_crc, frame_crc_ok, modes_repair_single_bit, spec_repair};

verus! {

/// The preamble test of the decoder, at absolute position `p` of the
/// sample buffer: the pulse shape relations over the first ten samples,
/// then the quiet-sample checks against the average spike level
/// `high = (m[0]+m[2]+m[7]+m[9])/6`.
pub open spec fn preamble_at(s: Seq<u8>, p: int) -> bool
    recommends
        0 <= p,
        p + 16 <= s.len(),
{
    let high = (s[p] + s[p + 2] + s[p + 7] + s[p + 9]) / 6;
    &&& s[p] > s[p + 1]
    &&& s[p + 1] < s[p + 2]
    &&& s[p + 2] > s[p + 3]
    &&& s[p + 3] < s[p]
    &&& s[p + 4] < s[p]
    &&& s[p + 5] < s[p]
    &&& s[p + 6] < s[p]
    &&& s[p + 7] > s[p + 8]
    &&& s[p + 8] < s[p + 9]
    &&& s[p + 9] > s[p + 6]
    &&& s[p + 4] < high
    &&& s[p + 5] < high
    &&& s[p + 11] < high
    &&& s[p + 12] < high
    &&& s[p + 13] < high
    &&& s[p + 14] < high
}

/// Bit `i` sliced from the data window that starts at `d`: each bit is a
/// pair of half-bit samples, 1 when the first is higher.
pub open spec fn demod_bit(s: Seq<u8>, d: int, i: int) -> u8
    recommends
        0 <= d,
        0 <= i,
        d + 2 * i + 2 <= s.len(),
{
    if s[d + 2 * i] > s[d + 2 * i + 1] {
        1u8
    } else {
        0u8
    }
}

/// Byte `k` of the packed frame: eight demodulated bits, MSB first.
pub open spec fn packed_byte(s: Seq<u8>, d: int, k: int) -> u8 {
    (demod_bit(s, d, 8 * k) * 128 + demod_bit(s, d, 8 * k + 1) * 64 + demod_bit(s, d, 8 * k + 2)
        * 32 + demod_bit(s, d, 8 * k + 3) * 16 + demod_bit(s, d, 8 * k + 4) * 8 + demod_bit(
        s,
        d,
        8 * k + 5,
    ) * 4 + demod_bit(s, d, 8 * k + 6) * 2 + demod_bit(s, d, 8 * k + 7)) as u8
}

/// The 14 bytes packed from the data window that starts at `d`.
pub open spec fn packed_frame(s: Seq<u8>, d: int) -> Seq<u8> {
    Seq::new(14, |k: int| packed_byte(s, d, k))
}

/// Downlink format: the top five bits of the first byte.
pub open spec fn downlink_format(b0: u8) -> u8 {
    b0 / 8
}

/// Frame length in bytes, determined by the downlink format.
pub open spec fn frame_len_bytes(b0: u8) -> int {
    if downlink_format(b0) == 16 || downlink_format(b0) == 17 || downlink_format(b0) == 19
        || downlink_format(b0) == 20 || downlink_format(b0) == 21 {
        14
    } else {
        7
    }
}

/// Sum over the first `n` bit cells of the data window at `d` of the
/// absolute difference of the two half-bit samples.
pub open spec fn squelch_sum(s: Seq<u8>, d: int, n: int) -> int
    decreases n,
{
    if n <= 0 {
        0
    } else {
        let lo = s[d + 2 * (n - 1)];
        let hi = s[d + 2 * (n - 1) + 1];
        squelch_sum(s, d, n - 1) + if lo >= hi {
            lo - hi
        } else {
            hi - lo
        }
    }
}

/// The squelch value of a frame of `len` bytes: the cell-difference sum
/// divided by `4 * len`.  A value below 16 marks the window as noise.
pub open spec fn squelch_val(s: Seq<u8>, d: int, len: int) -> int {
    squelch_sum(s, d, len * 8) / (len * 4)
}

/// Byte `k` assembled from a sequence of single-bit values, MSB first.
pub open spec fn byte_from_bits(bits: Seq<u8>, k: int) -> u8 {
    (bits[8 * k] * 128 + bits[8 * k + 1] * 64 + bits[8 * k + 2] * 32 + bits[8 * k + 3] * 16
        + bits[8 * k + 4] * 8 + bits[8 * k + 5] * 4 + bits[8 * k + 6] * 2 + bits[8 * k + 7]) as u8
}

/// What a matched preamble's data window (starting at `d`) yields: the
/// truncated packed frame when it passes squelch and its CRC equation
/// holds, the repaired frame when repair of a DF 11/17 frame succeeds,
/// and nothing otherwise.
pub open spec fn window_outcome(s: Seq<u8>, d: int) -> Option<Seq<u8>> {
    let full = packed_frame(s, d);
    let len = frame_len_bytes(full[0]);
    let f = full.subrange(0, len);
    if squelch_val(s, d, len) < 16 {
        None
    } else if frame_crc_ok(f) {
        Some(f)
    } else if downlink_format(full[0]) == 11 || downlink_format(full[0]) == 17 {
        spec_repair(f)
    } else {
        None
    }
}

/// The decoder's answer on a buffer from cursor `pos`: slide one sample
/// at a time until a preamble matches, then consume a whole 240-sample
/// window; stop at the first emitted frame or when under 240 samples
/// remain.  Returns the emitted frame bytes, if any, and the new cursor.
pub open spec fn spec_decode(s: Seq<u8>, pos: int) -> (Option<Seq<u8>>, int)
    decreases s.len() - pos when 0 <= pos
{
    if s.len() - pos < 240 {
        (None, pos)
    } else if !preamble_at(s, pos) {
        spec_decode(s, pos + 1)
    } else {
        match window_outcome(s, pos + 16) {
            Some(f) => (Some(f), pos + 240),
            None => spec_decode(s, pos + 240),
        }
    }
}

/// A decoded Mode-S frame: 7 or 14 bytes, the last three of which carry
/// the CRC-24 parity.
pub struct Frame(pub Vec<u8>);

impl Frame {
    /// A surfaced frame is short or long; the decoder emits no other.
    pub open spec fn wf(&self) -> bool {
        self.0@.len() == 7 || self.0@.len() == 14
    }

    /// Whether the frame's CRC-24 over its leading bytes equals its
    /// trailing 24 parity bits.
    pub fn valid(&self) -> (v: bool)
        requires
            self.wf(),
        ensures
            v == frame_crc_ok(self.0@),
    {
        check_frame_crc(&self.0)
    }

    /// Single-bit repair: the frame with the first repairable bit
    /// inverted, when one exists.
    pub fn try_repair(&self) -> (r: Option<Frame>)
        requires
            self.wf(),
        ensures
            match r {
                Some(g) => {
                    &&& Some(g.0@) == spec_repair(self.0@)
                    &&& g.wf()
                    &&& g.0@.len() == self.0@.len()
                    &&& frame_crc_ok(g.0@)
                },
                None => spec_repair(self.0@) is None,
            },
    {
        match modes_repair_single_bit(&self.0) {
            Some(g) => Some(Frame(g)),
            None => None,
        }
    }
}

/// The streaming Mode-S frame decoder.
pub struct FrameDecoder {}

impl FrameDecoder {
    pub fn new() -> FrameDecoder {
        FrameDecoder {  }
    }

    /// The preamble test at cursor `pos` of the sample buffer.
    pub fn detect_preamble(src: &Vec<u8>, pos: usize) -> (r: bool)
        requires
            pos + 16 <= src@.len(),
        ensures
            r == preamble_at(src@, pos as int),
    {
        let n: usize = src.len();
        assert(pos + 16 <= n);
        let m0: u32 = src[pos] as u32;
        let m1: u32 = src[pos + 1] as u32;
        let m2: u32 = src[pos + 2] as u32;
        let m3: u32 = src[pos + 3] as u32;
        let m4: u32 = src[pos + 4] as u32;
        let m5: u32 = src[pos + 5] as u32;
        let m6: u32 = src[pos + 6] as u32;
        let m7: u32 = src[pos + 7] as u32;
        let m8: u32 = src[pos + 8] as u32;
        let m9: u32 = src[pos + 9] as u32;
        if !(m0 > m1 && m1 < m2 && m2 > m3 && m3 < m0 && m4 < m0 && m5 < m0 && m6 < m0 && m7 > m8
            && m8 < m9 && m9 > m6) {
            return false;
        }
        let high: u32 = (m0 + m2 + m7 + m9) / 6;
        if m4 >= high || m5 >= high {
            return false;
        }
        if src[pos + 11] as u32 >= high || src[pos + 12] as u32 >= high || src[pos + 13] as u32
            >= high || src[pos + 14] as u32 >= high {
            return false;
        }
        true
    }

    /// Slices the 112 data bits out of the window that starts at `d`:
    /// bit `i` is 1 exactly when the first of its two half-bit samples
    /// is the higher.
    pub fn demodulate_samples_to_bits(src: &Vec<u8>, d: usize) -> (bits: Vec<u8>)
        requires
            d + 224 <= src@.len(),
        ensures
            bits@.len() == 112,
            forall|i: int| 0 <= i < 112 ==> bits@[i] == demod_bit(src@, d as int, i),
    {
        let n: usize = src.len();
        let mut bits: Vec<u8> = Vec::new();
        let mut i: usize = 0;
        while i < 112
            invariant
                i <= 112,
                n == src@.len(),
                d + 224 <= n,
                bits@.len() == i,
                forall|k: int| 0 <= k < i ==> bits@[k] == demod_bit(src@, d as int, k),
            decreases 112 - i,
        {
            let low: u8 = src[d + 2 * i];
            let high: u8 = src[d + 2 * i + 1];
            if low > high {
                bits.push(1);
            } else {
                bits.push(0);
            }
            i = i + 1;
        }
        bits
    }

    /// Packs 112 bits MSB-first into 14 bytes and truncates to the
    /// frame length that the first byte's downlink format declares.
    pub fn pack_bits(bits: &Vec<u8>) -> (frame: Vec<u8>)
        requires
            bits@.len() == 112,
            forall|i: int| 0 <= i < 112 ==> bits@[i] <= 1,
        ensures
            frame@.len() == frame_len_bytes(byte_from_bits(bits@, 0)),
            forall|k: int| 0 <= k < frame@.len() ==> frame@[k] == byte_from_bits(bits@, k),
    {
        let mut full: Vec<u8> = Vec::new();
        let mut k: usize = 0;
        while k < 14
            invariant
                k <= 14,
                bits@.len() == 112,
                forall|i: int| 0 <= i < 112 ==> bits@[i] <= 1,
                full@.len() == k,
                forall|j: int| 0 <= j < k ==> full@[j] == byte_from_bits(bits@, j),
            decreases 14 - k,
        {
            let b: u8 = bits[8 * k] * 128 + bits[8 * k + 1] * 64 + bits[8 * k + 2] * 32 + bits[8
                * k + 3] * 16 + bits[8 * k + 4] * 8 + bits[8 * k + 5] * 4 + bits[8 * k + 6] * 2
                + bits[8 * k + 7];
            full.push(b);
            k = k + 1;
        }
        let msgtype: u8 = full[0] / 8;
        let msglen: usize = if msgtype == 16 || msgtype == 17 || msgtype == 19 || msgtype == 20
            || msgtype == 21 {
            14
        } else {
            7
        };
        full.truncate(msglen);
        full
    }

    /// The squelch value of the window at `d` for a `len`-byte frame.
    pub fn squelch(src: &Vec<u8>, d: usize, len: usize) -> (v: u32)
        requires
            d + 224 <= src@.len(),
            len == 7 || len == 14,
        ensures
            v == squelch_val(src@, d as int, len as int),
    {
        let n: usize = src.len();
        let cells: usize = len * 8;
        let mut sum: u32 = 0;
        let mut i: usize = 0;
        while i < cells
            invariant
                i <= cells,
                cells == len * 8,
                len == 7 || len == 14,
                n == src@.len(),
                d + 224 <= n,
                sum == squelch_sum(src@, d as int, i as int),
                sum <= 255 * i,
            decreases cells - i,
        {
            let low: u8 = src[d + 2 * i];
            let high: u8 = src[d + 2 * i + 1];
            let delta: u8 = if low >= high {
                low - high
            } else {
                high - low
            };
            sum = sum + delta as u32;
            i = i + 1;
        }
        sum / (len as u32 * 4)
    }

    /// One decoding pass from cursor `pos`: scans for a preamble one
    /// sample at a time, demodulates each matched window, applies the
    /// squelch and CRC checks with single-bit repair for DF 11/17, and
    /// returns the first frame emitted together with the new cursor.
    /// Every emitted frame satisfies the CRC equation.
    pub fn decode(&self, src: &Vec<u8>, pos: usize) -> (r: (Option<Frame>, usize))
        requires
            pos <= src@.len(),
        ensures
            ({
                let (sf, np) = spec_decode(src@, pos as int);
                &&& r.1 == np
                &&& pos <= r.1 <= src@.len()
                &&& match r.0 {
                    Some(f) => {
                        &&& sf == Some(f.0@)
                        &&& f.wf()
                        &&& frame_crc_ok(f.0@)
                    },
                    None => sf is None,
                }
            }),
    {
        let mut p: usize = pos;
        while src.len() - p >= 240
            invariant
                pos <= p <= src@.len(),
                spec_decode(src@, pos as int) == spec_decode(src@, p as int),
            decreases src@.len() - p,
        {
            if !FrameDecoder::detect_preamble(src, p) {
                p = p + 1;
                continue ;
            }
            let d: usize = p + 16;
            let bits: Vec<u8> = FrameDecoder::demodulate_samples_to_bits(src, d);
            let frame_bytes: Vec<u8> = FrameDecoder::pack_bits(&bits);
            let len: usize = frame_bytes.len();
            proof {
                assert forall|k: int| 0 <= k < 14 implies packed_frame(src@, d as int)[k]
                    == byte_from_bits(bits@, k) by {
                    assert(bits@[8 * k] == demod_bit(src@, d as int, 8 * k));
                    assert(bits@[8 * k + 1] == demod_bit(src@, d as int, 8 * k + 1));
                    assert(bits@[8 * k + 2] == demod_bit(src@, d as int, 8 * k + 2));
                    assert(bits@[8 * k + 3] == demod_bit(src@, d as int, 8 * k + 3));
                    assert(bits@[8 * k + 4] == demod_bit(src@, d as int, 8 * k + 4));
                    assert(bits@[8 * k + 5] == demod_bit(src@, d as int, 8 * k + 5));
                    assert(bits@[8 * k + 6] == demod_bit(src@, d as int, 8 * k + 6));
                    assert(bits@[8 * k + 7] == demod_bit(src@, d as int, 8 * k + 7));
                }
                assert(frame_bytes@ =~= packed_frame(src@, d as int).subrange(
                    0,
                    frame_len_bytes(packed_frame(src@, d as int)[0]),
                ));
            }
            let v: u32 = FrameDecoder::squelch(src, d, len);
            if v < 16 {
                p = p + 240;
                continue ;
            }
            if check_frame_crc(&frame_bytes) {
                return (Some(Frame(frame_bytes)), p + 240);
            }
            let df: u8 = frame_bytes[0] / 8;
            if df == 11 || df == 17 {
                match modes_repair_single_bit(&frame_bytes) {
                    Some(g) => {
                        return (Some(Frame(g)), p + 240);
                    },
                    None => {
                        p = p + 240;
                    },
                }
            } else {
                p = p + 240;
            }
        }
        (None, p)
    }
}


/// A buffer short of one full window: the decoder asks for more data
/// and the cursor does not move.
pub proof fn lemma_decode_needs_more(s: Seq<u8>, pos: int)
    requires
        0 <= pos,
        s.len() - pos < 240,
    ensures
        spec_decode(s, pos) == (None::<Seq<u8>>, pos),
{
}

/// A matched window whose frame is dropped (squelch, or CRC failure
/// without repair) consumes the whole 240-sample window and emits
/// nothing, when no further window fits.
pub proof fn lemma_decode_drops_window(s: Seq<u8>, pos: int)
    requires
        0 <= pos,
        s.len() - pos >= 240,
        preamble_at(s, pos),
        window_outcome(s, pos + 16) is None,
        s.len() - (pos + 240) < 240,
    ensures
        spec_decode(s, pos) == (None::<Seq<u8>>, pos + 240),
{
    lemma_decode_needs_more(s, pos + 240);
}

/// The squelch boundary: a window whose squelch value is below 16 is
/// dropped; at 16 or above the frame is emitted whenever its CRC
/// equation holds.
pub proof fn lemma_squelch_boundary(s: Seq<u8>, d: int)
    ensures
        ({
            let full = packed_frame(s, d);
            let len = frame_len_bytes(full[0]);
            let f = full.subrange(0, len);
            &&& squelch_val(s, d, len) < 16 ==> window_outcome(s, d) is None
            &&& squelch_val(s, d, len) >= 16 && frame_crc_ok(f) ==> window_outcome(s, d) == Some(f)
        }),
{
}


/// The validity law: whatever frame a window yields - checked or
/// repaired - satisfies the CRC equation and is 7 or 14 bytes long.
pub proof fn lemma_emitted_frame_valid(s: Seq<u8>, d: int)
    requires
        window_outcome(s, d) is Some,
    ensures
        frame_crc_ok(window_outcome(s, d).unwrap()),
        window_outcome(s, d).unwrap().len() == 7 || window_outcome(s, d).unwrap().len() == 14,
{
    let full = packed_frame(s, d);
    let len = frame_len_bytes(full[0]);
    let f = full.subrange(0, len);
    if !frame_crc_ok(f) {
        crate::crc::lemma_first_repair_idx_props(f, 0);
    }
}

} // verus!
