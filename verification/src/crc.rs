//! Mode-S CRC-24 parity: the canonical 112-entry table, the checksum
//! over a 7- or 14-byte frame, and single-bit repair.
//!
//! Table entry `j` is the parity pattern contributed by a '1' bit in
//! position `j` of a 112-bit message; the last 24 entries are zero so
//! the trailing parity bytes do not affect the computation.  A 56-bit
//! frame uses the last 56 entries (offset 56).

use vstd::prelude::*;

verus! {

/// The canonical Mode-S parity table, as a mathematical sequence.
pub open spec fn checksum_table_spec() -> Seq<u32> {
    seq![
        0x3935ea, 0x1c9af5, 0xf1b77e, 0x78dbbf, 0xc397db, 0x9e31e9, 0xb0e2f0, 0x587178,
        0x2c38bc, 0x161c5e, 0x0b0e2f, 0xfa7d13, 0x82c48d, 0xbe9842, 0x5f4c21, 0xd05c14,
        0x682e0a, 0x341705, 0xe5f186, 0x72f8c3, 0xc68665, 0x9cb936, 0x4e5c9b, 0xd8d449,
        0x939020, 0x49c810, 0x24e408, 0x127204, 0x093902, 0x049c81, 0xfdb444, 0x7eda22,
        0x3f6d11, 0xe04c8c, 0x702646, 0x381323, 0xe3f395, 0x8e03ce, 0x4701e7, 0xdc7af7,
        0x91c77f, 0xb719bb, 0xa476d9, 0xadc168, 0x56e0b4, 0x2b705a, 0x15b82d, 0xf52612,
        0x7a9309, 0xc2b380, 0x6159c0, 0x30ace0, 0x185670, 0x0c2b38, 0x06159c, 0x030ace,
        0x018567, 0xff38b7, 0x80665f, 0xbfc92b, 0xa01e91, 0xaff54c, 0x57faa6, 0x2bfd53,
        0xea04ad, 0x8af852, 0x457c29, 0xdd4410, 0x6ea208, 0x375104, 0x1ba882, 0x0dd441,
        0xf91024, 0x7c8812, 0x3e4409, 0xe0d800, 0x706c00, 0x383600, 0x1c1b00, 0x0e0d80,
        0x0706c0, 0x038360, 0x01c1b0, 0x00e0d8, 0x00706c, 0x003836, 0x001c1b, 0xfff409,
        0x000000, 0x000000, 0x000000, 0x000000, 0x000000, 0x000000, 0x000000, 0x000000,
        0x000000, 0x000000, 0x000000, 0x000000, 0x000000, 0x000000, 0x000000, 0x000000,
        0x000000, 0x000000, 0x000000, 0x000000, 0x000000, 0x000000, 0x000000, 0x000000,
    ]
}

/// The same table as an executable vector.
fn checksum_table() -> (t: Vec<u32>)
    ensures
        t@ == checksum_table_spec(),
{
    let t: Vec<u32> = vec![
        0x3935ea, 0x1c9af5, 0xf1b77e, 0x78dbbf, 0xc397db, 0x9e31e9, 0xb0e2f0, 0x587178,
        0x2c38bc, 0x161c5e, 0x0b0e2f, 0xfa7d13, 0x82c48d, 0xbe9842, 0x5f4c21, 0xd05c14,
        0x682e0a, 0x341705, 0xe5f186, 0x72f8c3, 0xc68665, 0x9cb936, 0x4e5c9b, 0xd8d449,
        0x939020, 0x49c810, 0x24e408, 0x127204, 0x093902, 0x049c81, 0xfdb444, 0x7eda22,
        0x3f6d11, 0xe04c8c, 0x702646, 0x381323, 0xe3f395, 0x8e03ce, 0x4701e7, 0xdc7af7,
        0x91c77f, 0xb719bb, 0xa476d9, 0xadc168, 0x56e0b4, 0x2b705a, 0x15b82d, 0xf52612,
        0x7a9309, 0xc2b380, 0x6159c0, 0x30ace0, 0x185670, 0x0c2b38, 0x06159c, 0x030ace,
        0x018567, 0xff38b7, 0x80665f, 0xbfc92b, 0xa01e91, 0xaff54c, 0x57faa6, 0x2bfd53,
        0xea04ad, 0x8af852, 0x457c29, 0xdd4410, 0x6ea208, 0x375104, 0x1ba882, 0x0dd441,
        0xf91024, 0x7c8812, 0x3e4409, 0xe0d800, 0x706c00, 0x383600, 0x1c1b00, 0x0e0d80,
        0x0706c0, 0x038360, 0x01c1b0, 0x00e0d8, 0x00706c, 0x003836, 0x001c1b, 0xfff409,
        0x000000, 0x000000, 0x000000, 0x000000, 0x000000, 0x000000, 0x000000, 0x000000,
        0x000000, 0x000000, 0x000000, 0x000000, 0x000000, 0x000000, 0x000000, 0x000000,
        0x000000, 0x000000, 0x000000, 0x000000, 0x000000, 0x000000, 0x000000, 0x000000,
    ];
    proof {
        assert(t@ =~= checksum_table_spec());
    }
    t
}

/// Whether bit `j` (MSB-first across the whole frame) is set.
pub open spec fn frame_bit(frame: Seq<u8>, j: int) -> bool
    recommends
        0 <= j < frame.len() * 8,
{
    frame[j / 8] & (1u8 << (7 - j % 8) as u8) != 0
}

/// Offset into the parity table: a 14-byte frame uses the whole table,
/// a shorter one the last 56 entries.
pub open spec fn modes_offset(len: int) -> int {
    if len == 14 {
        0
    } else {
        56
    }
}

/// XOR of the table entries selected by the first `j` bits of the frame.
pub open spec fn crc24_partial(frame: Seq<u8>, offset: int, j: int) -> u32
    decreases j,
{
    if j <= 0 {
        0
    } else {
        let prev = crc24_partial(frame, offset, j - 1);
        if frame_bit(frame, j - 1) {
            prev ^ checksum_table_spec()[j - 1 + offset]
        } else {
            prev
        }
    }
}

/// The Mode-S CRC-24 of a frame: XOR of the table entries (at the
/// length-determined offset) for every set bit of the frame.
pub open spec fn spec_modes_checksum(frame: Seq<u8>) -> u32 {
    crc24_partial(frame, modes_offset(frame.len() as int), frame.len() * 8 as int)
}

/// The trailing three bytes of a frame read as a big-endian 24-bit value.
pub open spec fn be24(s: Seq<u8>) -> u32
    recommends
        s.len() == 3,
{
    (s[0] * 65536 + s[1] * 256 + s[2]) as u32
}

/// A frame's computed CRC-24 equals its trailing 24 parity bits.
pub open spec fn frame_crc_ok(f: Seq<u8>) -> bool {
    spec_modes_checksum(f) == be24(f.subrange(f.len() - 3, f.len() as int))
}

/// The frame with bit `j` (MSB-first) inverted.
pub open spec fn flip_bit(f: Seq<u8>, j: int) -> Seq<u8>
    recommends
        0 <= j < f.len() * 8,
{
    f.update(j / 8, f[j / 8] ^ (1u8 << (7 - j % 8) as u8))
}

/// The first bit position at or after `j` whose inversion makes the CRC
/// equation hold, or -1 when no such position exists.
pub open spec fn first_repair_idx(f: Seq<u8>, j: int) -> int
    decreases f.len() * 8 - j when j <= f.len() * 8
{
    if j < 0 || j >= f.len() * 8 {
        -1
    } else if frame_crc_ok(flip_bit(f, j)) {
        j
    } else {
        first_repair_idx(f, j + 1)
    }
}

/// The repaired frame: the input with the first repairable bit inverted,
/// or nothing when no single inversion makes the CRC equation hold.
pub open spec fn spec_repair(f: Seq<u8>) -> Option<Seq<u8>> {
    let i = first_repair_idx(f, 0);
    if i >= 0 {
        Some(flip_bit(f, i))
    } else {
        None
    }
}

/// What `first_repair_idx` finds: a position in range whose inversion
/// repairs the frame, with no repairable position before it.
pub proof fn lemma_first_repair_idx_props(f: Seq<u8>, j: int)
    requires
        0 <= j <= f.len() * 8,
    ensures
        ({
            let i = first_repair_idx(f, j);
            ||| i == -1 && forall|k: int| j <= k < f.len() * 8 ==> !frame_crc_ok(flip_bit(f, k))
            ||| {
                &&& j <= i < f.len() * 8
                &&& frame_crc_ok(flip_bit(f, i))
                &&& forall|k: int| j <= k < i ==> !frame_crc_ok(flip_bit(f, k))
            }
        }),
    decreases f.len() * 8 - j,
{
    if j < f.len() * 8 && !frame_crc_ok(flip_bit(f, j)) {
        lemma_first_repair_idx_props(f, j + 1);
    }
}

/// Skipping over known-unrepairable positions does not change what the
/// search finds.
pub proof fn lemma_first_repair_idx_skip(f: Seq<u8>, j: int)
    requires
        0 <= j <= f.len() * 8,
        forall|k: int| 0 <= k < j ==> !frame_crc_ok(flip_bit(f, k)),
    ensures
        first_repair_idx(f, 0) == first_repair_idx(f, j),
    decreases j,
{
    if j > 0 {
        lemma_first_repair_idx_skip(f, j - 1);
    }
}

/// Bitwise effect of XOR with a one-bit mask, used to show that a flip
/// touches exactly one bit.
proof fn lemma_u8_flip(b: u8, a: u8, c: u8)
    by (bit_vector)
    requires
        a < 8,
        c < 8,
    ensures
        a == c ==> ((b ^ (1u8 << a)) & (1u8 << c) != 0) == !(b & (1u8 << c) != 0),
        a != c ==> ((b ^ (1u8 << a)) & (1u8 << c) != 0) == (b & (1u8 << c) != 0),
{
}

/// Inverting bit `j` changes that bit and no other: a repaired frame
/// differs from its input in exactly one bit.
pub proof fn lemma_flip_bit_changes_one(f: Seq<u8>, j: int)
    requires
        0 <= j < f.len() * 8,
    ensures
        flip_bit(f, j).len() == f.len(),
        frame_bit(flip_bit(f, j), j) == !frame_bit(f, j),
        forall|k: int|
            0 <= k < f.len() * 8 && k != j ==> frame_bit(flip_bit(f, j), k) == frame_bit(f, k),
{
    let g = flip_bit(f, j);
    let a = (7 - j % 8) as u8;
    lemma_u8_flip(f[j / 8], a, a);
    assert forall|k: int|
        0 <= k < f.len() * 8 && k != j implies frame_bit(g, k) == frame_bit(f, k) by {
        let c = (7 - k % 8) as u8;
        if k / 8 == j / 8 {
            assert(k % 8 != j % 8);
            lemma_u8_flip(f[j / 8], a, c);
        }
    }
}

/// Mode-S CRC-24 over a short (7-byte) or long (14-byte) frame.
pub fn modes_checksum(frame: &Vec<u8>) -> (crc: u32)
    requires
        frame@.len() == 7 || frame@.len() == 14,
    ensures
        crc == spec_modes_checksum(frame@),
{
    let table: Vec<u32> = checksum_table();
    let offset: usize = if frame.len() == 14 {
        0
    } else {
        56
    };
    let mut crc: u32 = 0;
    let end: usize = frame.len() * 8;
    let mut j: usize = 0;
    while j < end
        invariant
            end == frame@.len() * 8,
            frame@.len() == 7 || frame@.len() == 14,
            j <= end,
            offset == modes_offset(frame@.len() as int),
            table@ == checksum_table_spec(),
            crc == crc24_partial(frame@, offset as int, j as int),
        decreases end - j,
    {
        let byte: usize = j / 8;
        let bit: usize = j % 8;
        let bitmask: u8 = 1u8 << (7 - bit) as u8;
        if frame[byte] & bitmask != 0 {
            crc = crc ^ table[j + offset];
        }
        j = j + 1;
    }
    crc
}

/// Checks the CRC equation of a frame: its computed CRC-24 against the
/// trailing 24 bits read big-endian.
pub fn check_frame_crc(frame: &Vec<u8>) -> (ok: bool)
    requires
        frame@.len() == 7 || frame@.len() == 14,
    ensures
        ok == frame_crc_ok(frame@),
{
    let n: usize = frame.len();
    let trailing: u32 =
        (frame[n - 3] as u32) * 65536 + (frame[n - 2] as u32) * 256 + (frame[n - 1] as u32);
    let crc: u32 = modes_checksum(frame);
    proof {
        let t = frame@.subrange(frame@.len() - 3, frame@.len() as int);
        assert(t[0] == frame@[frame@.len() - 3]);
        assert(t[1] == frame@[frame@.len() - 2]);
        assert(t[2] == frame@[frame@.len() - 1]);
    }
    crc == trailing
}

/// Searches the single-bit corruptions of `frame` (MSB-first bit order)
/// for the first one whose CRC equation holds.
pub fn modes_repair_single_bit(frame: &Vec<u8>) -> (r: Option<Vec<u8>>)
    requires
        frame@.len() == 7 || frame@.len() == 14,
    ensures
        match r {
            Some(g) => {
                &&& Some(g@) == spec_repair(frame@)
                &&& g@.len() == frame@.len()
                &&& frame_crc_ok(g@)
            },
            None => {
                &&& spec_repair(frame@) is None
                &&& forall|k: int|
                    0 <= k < frame@.len() * 8 ==> !frame_crc_ok(flip_bit(frame@, k))
            },
        },
{
    let end: usize = frame.len() * 8;
    let mut j: usize = 0;
    while j < end
        invariant
            end == frame@.len() * 8,
            frame@.len() == 7 || frame@.len() == 14,
            j <= end,
            forall|k: int| 0 <= k < j ==> !frame_crc_ok(flip_bit(frame@, k)),
        decreases end - j,
    {
        let byte: usize = j / 8;
        let bitmask: u8 = 1u8 << (7 - j % 8) as u8;
        let mut candidate: Vec<u8> = frame.clone();
        let flipped: u8 = candidate[byte] ^ bitmask;
        candidate.set(byte, flipped);
        proof {
            assert(candidate@ =~= flip_bit(frame@, j as int));
        }
        if check_frame_crc(&candidate) {
            proof {
                lemma_first_repair_idx_skip(frame@, j as int);
            }
            return Some(candidate);
        }
        j = j + 1;
    }
    proof {
        lemma_first_repair_idx_skip(frame@, frame@.len() * 8 as int);
    }
    None
}


/// The repair law: a repaired frame differs from its input in exactly
/// one bit and satisfies the CRC equation.
pub proof fn lemma_repair_changes_exactly_one_bit(f: Seq<u8>)
    requires
        spec_repair(f) is Some,
    ensures
        ({
            let g = spec_repair(f).unwrap();
            &&& g.len() == f.len()
            &&& frame_crc_ok(g)
            &&& exists|j: int|
                (0 <= j < f.len() * 8 && g == #[trigger] flip_bit(f, j) && frame_bit(g, j)
                    == !frame_bit(f, j) && (forall|k: int|
                    0 <= k < f.len() * 8 && k != j ==> frame_bit(g, k) == frame_bit(f, k)))
        }),
{
    let i = first_repair_idx(f, 0);
    lemma_first_repair_idx_props(f, 0);
    lemma_flip_bit_changes_one(f, i);
    let g = spec_repair(f).unwrap();
    assert(g == flip_bit(f, i));
}

} // verus!
