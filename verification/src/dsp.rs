//! DSP front end: interleaved 8-bit I/Q samples are turned into 8-bit
//! magnitude samples, one per (I, Q) pair, with `mag` the square root of
//! `(I-127)^2 + (Q-127)^2` rounded to the nearest integer.

use vstd::prelude::*;

verus! {

/// One interleaved sample pair, both components centred on 127.
pub struct IQ {
    pub i: u8,
    pub q: u8,
}

/// Squared distance of the pair from the centre (127, 127).
pub open spec fn mag_sq(i: u8, q: u8) -> int {
    (i - 127) * (i - 127) + (q - 127) * (q - 127)
}

/// `m` is the square root of `s`, rounded to the nearest integer.
/// (`4*s` is even and `(2m+1)^2` odd, so no tie can arise.)
pub open spec fn rounds_to_sqrt(s: int, m: int) -> bool {
    &&& 0 <= m
    &&& m == 0 || (2 * m - 1) * (2 * m - 1) <= 4 * s
    &&& 4 * s < (2 * m + 1) * (2 * m + 1)
}

/// Rounding to the nearest integer is a function: no `s` has two roots,
/// so `rounds_to_sqrt` pins the magnitude down completely.
pub proof fn lemma_rounds_to_sqrt_unique(s: int, a: int, b: int)
    by (nonlinear_arith)
    requires
        rounds_to_sqrt(s, a),
        rounds_to_sqrt(s, b),
    ensures
        a == b,
{
}

impl IQ {
    /// Magnitude of the pair: the rounded square root of `mag_sq`, which
    /// never exceeds 182 and so always fits the 8-bit output sample.
    pub fn magnitude(&self) -> (m: u8)
        ensures
            rounds_to_sqrt(mag_sq(self.i, self.q), m as int),
    {
        let di: i32 = self.i as i32 - 127;
        let dq: i32 = self.q as i32 - 127;
        assert(0 <= di * di <= 16384 && 0 <= dq * dq <= 16384) by (nonlinear_arith)
            requires
                -127 <= di <= 128,
                -127 <= dq <= 128,
        ;
        let s: u32 = (di * di + dq * dq) as u32;
        assert(s == mag_sq(self.i, self.q));
        let mut m: u32 = 0;
        loop
            invariant_except_break
                s <= 32768,
                m <= 181,
                m == 0 || (2 * m - 1) * (2 * m - 1) <= 4 * s,
            ensures
                m <= 181,
                rounds_to_sqrt(s as int, m as int),
            decreases 182 - m,
        {
            let t: u32 = 2 * (m + 1) - 1;
            assert(t * t <= 133225) by (nonlinear_arith)
                requires
                    t <= 365,
            ;
            if t * t > 4 * s {
                break;
            }
            assert(m < 181) by (nonlinear_arith)
                requires
                    s <= 32768,
                    m <= 181,
                    t == 2 * m + 1,
                    t * t <= 4 * s,
            ;
            m = m + 1;
        }
        m as u8
    }
}


/// The bytes still owed to the next pair: at most the one dangling
/// I sample of an odd-length read.
pub open spec fn pending_seq(p: Option<u8>) -> Seq<u8> {
    match p {
        Some(b) => seq![b],
        None => Seq::empty(),
    }
}

/// The magnitude stage: consumes interleaved I/Q bytes in arbitrary
/// chunks and produces one magnitude sample per pair, buffering the
/// dangling byte of an odd-length chunk so that I is always consumed
/// before Q.
pub struct MagnitudeStage {
    pub pending: Option<u8>,
}

impl MagnitudeStage {
    pub fn new() -> (s: MagnitudeStage)
        ensures
            s.pending is None,
    {
        MagnitudeStage { pending: None }
    }

    /// Feeds one chunk: with `all` the buffered byte followed by the
    /// chunk, the output holds the magnitude of each complete (I, Q)
    /// pair of `all`, and an odd trailing byte is buffered for the
    /// next call.
    pub fn push(&mut self, chunk: &Vec<u8>) -> (out: Vec<u8>)
        ensures
            ({
                let all = pending_seq(old(self).pending) + chunk@;
                &&& out@.len() == all.len() / 2
                &&& forall|k: int|
                    0 <= k < out@.len() ==> rounds_to_sqrt(
                        mag_sq(all[2 * k], all[2 * k + 1]),
                        #[trigger] out@[k] as int,
                    )
                &&& pending_seq(final(self).pending) == if all.len() % 2 == 0 {
                    Seq::<u8>::empty()
                } else {
                    seq![all[all.len() - 1]]
                }
            }),
    {
        let ghost opending = self.pending;
        let mut all: Vec<u8> = Vec::new();
        match self.pending {
            Some(b) => {
                all.push(b);
            },
            None => {},
        }
        let mut i: usize = 0;
        let n: usize = chunk.len();
        while i < n
            invariant
                i <= n,
                n == chunk@.len(),
                all@ == pending_seq(opending) + chunk@.subrange(0, i as int),
            decreases n - i,
        {
            let b: u8 = chunk[i];
            all.push(b);
            i = i + 1;
            proof {
                assert(pending_seq(opending) + chunk@.subrange(0, i - 1) + seq![chunk@[i - 1]]
                    =~= pending_seq(opending) + chunk@.subrange(0, i as int));
            }
        }
        proof {
            assert(chunk@.subrange(0, chunk@.len() as int) =~= chunk@);
        }
        let m: usize = all.len();
        let pairs: usize = m / 2;
        let mut out: Vec<u8> = Vec::new();
        let mut k: usize = 0;
        while k < pairs
            invariant
                k <= pairs,
                m == all@.len(),
                pairs == all@.len() / 2,
                out@.len() == k,
                forall|j: int|
                    0 <= j < k ==> rounds_to_sqrt(
                        mag_sq(all@[2 * j], all@[2 * j + 1]),
                        #[trigger] out@[j] as int,
                    ),
            decreases pairs - k,
        {
            let iq = IQ { i: all[2 * k], q: all[2 * k + 1] };
            out.push(iq.magnitude());
            k = k + 1;
        }
        if m % 2 == 1 {
            self.pending = Some(all[m - 1]);
        } else {
            self.pending = None;
        }
        out
    }
}

} // verus!
