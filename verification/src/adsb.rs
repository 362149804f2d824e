//! Mode-S / ADS-B message parsing: a validated 7- or 14-byte frame is
//! interpreted by its downlink format (DF).  DF 0, 4, 5 are short
//! surveillance replies, DF 11 the all-call reply, DF 16, 20, 21 long
//! replies, and DF 17 the extended squitter whose type code selects an
//! ADS-B sub-kind (identification, surface or airborne position,
//! airborne velocity).
//!
//! The ICAO address of DF 11/17 stands in bytes 1..4; for the other
//! formats it is overlaid on the parity field and recovered as
//! `checksum XOR trailing-parity`.

use vstd::prelude::*;

use crate::crc::{be24, spec_modes_checksum, modes_checksum};
use crate::mode_s::{downlink_format, frame_len_bytes};

verus! {

/// Why a frame was rejected by the parser.
#[derive(Clone, Copy, Debug, PartialEq, Eq, Structural)]
pub enum ParseError {
    /// The byte length does not match the length its DF declares.
    Length,
    /// A downlink format this parser does not interpret.
    UnsupportedFormat,
}

/// An ADS-B (DF 17) sub-message, selected by the type code.
pub enum AdsbKind {
    /// TC 1..4: callsign in the 6-bit character set, one byte per
    /// character, always 8 characters.
    AircraftIdentification { type_code: u8, category: u8, callsign: Vec<u8> },
    /// TC 5..8: ground movement and the raw CPR position.
    SurfacePosition {
        movement: u8,
        track_valid: bool,
        track: u8,
        odd: bool,
        lat_cpr: u32,
        lon_cpr: u32,
    },
    /// TC 9..18 (barometric) and 20..22 (GNSS): altitude in feet when
    /// the code carries one, and the raw CPR position.
    AirbornePosition { altitude: Option<i32>, gnss: bool, odd: bool, lat_cpr: u32, lon_cpr: u32 },
    /// TC 19: the raw velocity fields of the sub-type.
    AirborneVelocity {
        subtype: u8,
        ew_sign: bool,
        ew_raw: u16,
        ns_sign: bool,
        ns_raw: u16,
        vr_sign: bool,
        vr_raw: u16,
    },
    /// Any other type code.
    Unsupported { type_code: u8 },
}

/// The decoded content of a frame, by downlink format.
pub enum MessageKind {
    /// DF 0: short air-air surveillance.
    ShortAirAir { altitude: Option<i32> },
    /// DF 4: surveillance altitude reply.
    SurveillanceAltitude { altitude: Option<i32> },
    /// DF 5: surveillance identity reply.
    SurveillanceIdentity { squawk: u16 },
    /// DF 11: all-call reply; the ICAO address alone.
    AllCallReply,
    /// DF 16: long air-air surveillance.
    LongAirAir { altitude: Option<i32> },
    /// DF 17: extended squitter.
    ExtendedSquitter(AdsbKind),
    /// DF 20: Comm-B altitude reply.
    CommBAltitude { altitude: Option<i32> },
    /// DF 21: Comm-B identity reply.
    CommBIdentity { squawk: u16 },
}

/// A parsed Mode-S message.
pub struct Message {
    pub icao: u32,
    pub downlink_format: u8,
    pub kind: MessageKind,
}

/// The standard ICAO-address mapping: bytes 1..4 for DF 11/17, and the
/// checksum XORed with the trailing parity for the interrogated
/// formats.
pub open spec fn spec_icao(f: Seq<u8>) -> u32
    recommends
        f.len() == 7 || f.len() == 14,
{
    if downlink_format(f[0]) == 11 || downlink_format(f[0]) == 17 {
        (f[1] * 65536 + f[2] * 256 + f[3]) as u32
    } else {
        spec_modes_checksum(f) ^ be24(f.subrange(f.len() - 3, f.len() as int))
    }
}

/// The 13-bit altitude code of DF 0/4/16/20 (bytes 2..4).
pub open spec fn spec_ac13(f: Seq<u8>) -> u16 {
    ((f[2] % 32) * 256 + f[3]) as u16
}

/// Altitude in feet from a 13-bit code: 25-foot scale when M = 0 and
/// Q = 1; the Gillham codings are left undecoded.
pub open spec fn spec_alt13(code: u16) -> Option<i32> {
    if (code / 64) % 2 == 0 && (code / 16) % 2 == 1 {
        Some((((code / 128) * 32 + ((code / 32) % 2) * 16 + code % 16) * 25 - 1000) as i32)
    } else {
        None
    }
}

/// The 12-bit altitude code of a DF 17 airborne position (byte 5 and
/// the high nibble of byte 6).
pub open spec fn spec_ac12(f: Seq<u8>) -> u16 {
    (f[5] * 16 + f[6] / 16) as u16
}

/// Altitude in feet from a 12-bit code: 25-foot scale when Q = 1.
pub open spec fn spec_alt12(code: u16) -> Option<i32> {
    if (code / 16) % 2 == 1 {
        Some((((code / 32) * 16 + code % 16) * 25 - 1000) as i32)
    } else {
        None
    }
}

/// The 13-bit identity code of DF 5/21 (bytes 2..4).
pub open spec fn spec_id13(f: Seq<u8>) -> u16 {
    ((f[2] % 32) * 256 + f[3]) as u16
}

/// The squawk of an identity code: the 13 bits C1 A1 C2 A2 C4 A4 X B1
/// D1 B2 D2 B4 D4 regrouped into four octal digits A B C D, read as the
/// decimal number ABCD.
pub open spec fn spec_squawk(code: u16) -> u16 {
    (((code / 2048) % 2 + 2 * ((code / 512) % 2) + 4 * ((code / 128) % 2)) * 1000 + ((code / 32)
        % 2 + 2 * ((code / 8) % 2) + 4 * ((code / 2) % 2)) * 100 + ((code / 4096) % 2 + 2 * ((code
        / 1024) % 2) + 4 * ((code / 256) % 2)) * 10 + ((code / 16) % 2 + 2 * ((code / 4) % 2) + 4
        * (code % 2))) as u16
}

/// One character of the 6-bit callsign character set.
pub open spec fn cs_char(code: u8) -> u8 {
    if 1 <= code <= 26 {
        (64 + code) as u8
    } else if 48 <= code <= 57 {
        code
    } else if code == 32 {
        code
    } else {
        35
    }
}

/// The eight 6-bit character codes of an identification message,
/// packed MSB-first into bytes 5..11.
pub open spec fn spec_cs_code(f: Seq<u8>, i: int) -> u8
    recommends
        0 <= i < 8,
{
    if i == 0 {
        (f[5] / 4) as u8
    } else if i == 1 {
        ((f[5] % 4) * 16 + f[6] / 16) as u8
    } else if i == 2 {
        ((f[6] % 16) * 4 + f[7] / 64) as u8
    } else if i == 3 {
        (f[7] % 64) as u8
    } else if i == 4 {
        (f[8] / 4) as u8
    } else if i == 5 {
        ((f[8] % 4) * 16 + f[9] / 16) as u8
    } else if i == 6 {
        ((f[9] % 16) * 4 + f[10] / 64) as u8
    } else {
        (f[10] % 64) as u8
    }
}

/// The decoded 8-character callsign of an identification message.
pub open spec fn spec_callsign(f: Seq<u8>) -> Seq<u8> {
    Seq::new(8, |i: int| cs_char(spec_cs_code(f, i)))
}

/// CPR format flag: the frame carries an odd-format position.
pub open spec fn spec_cpr_odd(f: Seq<u8>) -> bool {
    (f[6] / 4) % 2 == 1
}

/// The 17-bit CPR latitude of a position message.
pub open spec fn spec_cpr_lat(f: Seq<u8>) -> u32 {
    ((f[6] % 4) * 32768 + f[7] * 128 + f[8] / 2) as u32
}

/// The 17-bit CPR longitude of a position message.
pub open spec fn spec_cpr_lon(f: Seq<u8>) -> u32 {
    ((f[8] % 2) * 65536 + f[9] * 256 + f[10]) as u32
}

/// The type code of an extended squitter: the top five bits of byte 4.
pub open spec fn spec_tc(f: Seq<u8>) -> u8 {
    f[4] / 8
}

/// What the ADS-B sub-message of a DF 17 frame must hold, by type code.
pub open spec fn adsb_kind_matches(f: Seq<u8>, k: AdsbKind) -> bool {
    let tc = spec_tc(f);
    if 1 <= tc <= 4 {
        k matches AdsbKind::AircraftIdentification { type_code, category, callsign } && type_code
            == tc && category == f[4] % 8 && callsign@ == spec_callsign(f)
    } else if 5 <= tc <= 8 {
        k matches AdsbKind::SurfacePosition {
            movement,
            track_valid,
            track,
            odd,
            lat_cpr,
            lon_cpr,
        } && movement == ((f[4] % 8) * 16 + f[5] / 16) as u8 && track_valid == ((f[5] / 8) % 2
            == 1) && track == ((f[5] % 8) * 16 + f[6] / 16) as u8 && odd == spec_cpr_odd(f)
            && lat_cpr == spec_cpr_lat(f) && lon_cpr == spec_cpr_lon(f)
    } else if 9 <= tc <= 18 || 20 <= tc <= 22 {
        k matches AdsbKind::AirbornePosition { altitude, gnss, odd, lat_cpr, lon_cpr } && altitude
            == spec_alt12(spec_ac12(f)) && gnss == (20 <= tc <= 22) && odd == spec_cpr_odd(f)
            && lat_cpr == spec_cpr_lat(f) && lon_cpr == spec_cpr_lon(f)
    } else if tc == 19 {
        k matches AdsbKind::AirborneVelocity {
            subtype,
            ew_sign,
            ew_raw,
            ns_sign,
            ns_raw,
            vr_sign,
            vr_raw,
        } && subtype == f[4] % 8 && ew_sign == ((f[5] / 4) % 2 == 1) && ew_raw == ((f[5] % 4) * 256
            + f[6]) as u16 && ns_sign == (f[7] / 128 == 1) && ns_raw == ((f[7] % 128) * 8 + f[8]
            / 32) as u16 && vr_sign == ((f[8] / 8) % 2 == 1) && vr_raw == ((f[8] % 8) * 64 + f[9]
            / 4) as u16
    } else {
        k matches AdsbKind::Unsupported { type_code } && type_code == tc
    }
}

/// What the decoded kind of a frame must hold, by downlink format.
pub open spec fn kind_matches(f: Seq<u8>, k: MessageKind) -> bool {
    let df = downlink_format(f[0]);
    if df == 0 {
        k matches MessageKind::ShortAirAir { altitude } && altitude == spec_alt13(spec_ac13(f))
    } else if df == 4 {
        k matches MessageKind::SurveillanceAltitude { altitude } && altitude == spec_alt13(
            spec_ac13(f),
        )
    } else if df == 5 {
        k matches MessageKind::SurveillanceIdentity { squawk } && squawk == spec_squawk(
            spec_id13(f),
        )
    } else if df == 11 {
        k matches MessageKind::AllCallReply
    } else if df == 16 {
        k matches MessageKind::LongAirAir { altitude } && altitude == spec_alt13(spec_ac13(f))
    } else if df == 17 {
        k matches MessageKind::ExtendedSquitter(a) && adsb_kind_matches(f, a)
    } else if df == 20 {
        k matches MessageKind::CommBAltitude { altitude } && altitude == spec_alt13(spec_ac13(f))
    } else if df == 21 {
        k matches MessageKind::CommBIdentity { squawk } && squawk == spec_squawk(spec_id13(f))
    } else {
        false
    }
}

/// The downlink formats this parser interprets.
pub open spec fn supported_df(df: u8) -> bool {
    df == 0 || df == 4 || df == 5 || df == 11 || df == 16 || df == 17 || df == 20 || df == 21
}


/// The 13-bit altitude (or identity) code at bytes 2..4.
fn code13(frame: &Vec<u8>) -> (c: u16)
    requires
        frame@.len() >= 4,
    ensures
        c == spec_ac13(frame@),
        c == spec_id13(frame@),
        c < 8192,
{
    (frame[2] % 32) as u16 * 256 + frame[3] as u16
}

/// Altitude in feet from a 13-bit code.
fn decode_alt13(code: u16) -> (r: Option<i32>)
    requires
        code < 8192,
    ensures
        r == spec_alt13(code),
{
    if (code / 64) % 2 == 0 && (code / 16) % 2 == 1 {
        let nv: u32 = (code as u32 / 128) * 32 + ((code as u32 / 32) % 2) * 16 + code as u32 % 16;
        Some((nv * 25) as i32 - 1000)
    } else {
        None
    }
}

/// Altitude in feet from a 12-bit code.
fn decode_alt12(code: u16) -> (r: Option<i32>)
    requires
        code < 4096,
    ensures
        r == spec_alt12(code),
{
    if (code / 16) % 2 == 1 {
        let nv: u32 = (code as u32 / 32) * 16 + code as u32 % 16;
        Some((nv * 25) as i32 - 1000)
    } else {
        None
    }
}

/// Squawk digits from a 13-bit identity code.
fn decode_squawk(code: u16) -> (s: u16)
    requires
        code < 8192,
    ensures
        s == spec_squawk(code),
{
    ((code / 2048) % 2 + 2 * ((code / 512) % 2) + 4 * ((code / 128) % 2)) * 1000 + ((code / 32) % 2
        + 2 * ((code / 8) % 2) + 4 * ((code / 2) % 2)) * 100 + ((code / 4096) % 2 + 2 * ((code
        / 1024) % 2) + 4 * ((code / 256) % 2)) * 10 + ((code / 16) % 2 + 2 * ((code / 4) % 2) + 4
        * (code % 2))
}

/// One character of the 6-bit character set.
fn decode_cs_char(code: u8) -> (c: u8)
    ensures
        c == cs_char(code),
{
    if 1 <= code && code <= 26 {
        64 + code
    } else if 48 <= code && code <= 57 {
        code
    } else if code == 32 {
        code
    } else {
        35
    }
}

/// The 8-character callsign of an identification message.
fn decode_callsign(frame: &Vec<u8>) -> (r: Vec<u8>)
    requires
        frame@.len() == 14,
    ensures
        r@ == spec_callsign(frame@),
{
    let mut r: Vec<u8> = Vec::new();
    r.push(decode_cs_char(frame[5] / 4));
    r.push(decode_cs_char((frame[5] % 4) * 16 + frame[6] / 16));
    r.push(decode_cs_char((frame[6] % 16) * 4 + frame[7] / 64));
    r.push(decode_cs_char(frame[7] % 64));
    r.push(decode_cs_char(frame[8] / 4));
    r.push(decode_cs_char((frame[8] % 4) * 16 + frame[9] / 16));
    r.push(decode_cs_char((frame[9] % 16) * 4 + frame[10] / 64));
    r.push(decode_cs_char(frame[10] % 64));
    proof {
        assert(r@ =~= spec_callsign(frame@));
    }
    r
}

/// The ADS-B sub-message of a DF 17 frame.
fn decode_adsb_kind(frame: &Vec<u8>) -> (k: AdsbKind)
    requires
        frame@.len() == 14,
    ensures
        adsb_kind_matches(frame@, k),
{
    let tc: u8 = frame[4] / 8;
    if 1 <= tc && tc <= 4 {
        AdsbKind::AircraftIdentification {
            type_code: tc,
            category: frame[4] % 8,
            callsign: decode_callsign(frame),
        }
    } else if 5 <= tc && tc <= 8 {
        AdsbKind::SurfacePosition {
            movement: (frame[4] % 8) * 16 + frame[5] / 16,
            track_valid: (frame[5] / 8) % 2 == 1,
            track: (frame[5] % 8) * 16 + frame[6] / 16,
            odd: (frame[6] / 4) % 2 == 1,
            lat_cpr: (frame[6] % 4) as u32 * 32768 + frame[7] as u32 * 128 + frame[8] as u32 / 2,
            lon_cpr: (frame[8] % 2) as u32 * 65536 + frame[9] as u32 * 256 + frame[10] as u32,
        }
    } else if (9 <= tc && tc <= 18) || (20 <= tc && tc <= 22) {
        let code: u16 = frame[5] as u16 * 16 + (frame[6] / 16) as u16;
        AdsbKind::AirbornePosition {
            altitude: decode_alt12(code),
            gnss: tc >= 20,
            odd: (frame[6] / 4) % 2 == 1,
            lat_cpr: (frame[6] % 4) as u32 * 32768 + frame[7] as u32 * 128 + frame[8] as u32 / 2,
            lon_cpr: (frame[8] % 2) as u32 * 65536 + frame[9] as u32 * 256 + frame[10] as u32,
        }
    } else if tc == 19 {
        AdsbKind::AirborneVelocity {
            subtype: frame[4] % 8,
            ew_sign: (frame[5] / 4) % 2 == 1,
            ew_raw: (frame[5] % 4) as u16 * 256 + frame[6] as u16,
            ns_sign: frame[7] / 128 == 1,
            ns_raw: (frame[7] % 128) as u16 * 8 + (frame[8] / 32) as u16,
            vr_sign: (frame[8] / 8) % 2 == 1,
            vr_raw: (frame[8] % 8) as u16 * 64 + (frame[9] / 4) as u16,
        }
    } else {
        AdsbKind::Unsupported { type_code: tc }
    }
}

/// Parses a validated Mode-S frame into a message.  Succeeds exactly
/// when the frame's length matches what its downlink format declares
/// and the format is one this parser interprets; the resulting ICAO
/// address always follows the standard mapping.
pub fn parse(frame: &Vec<u8>) -> (r: Result<Message, ParseError>)
    ensures
        match r {
            Ok(m) => {
                &&& frame@.len() >= 1
                &&& frame@.len() == frame_len_bytes(frame@[0])
                &&& supported_df(downlink_format(frame@[0]))
                &&& m.downlink_format == downlink_format(frame@[0])
                &&& m.icao == spec_icao(frame@)
                &&& kind_matches(frame@, m.kind)
            },
            Err(ParseError::Length) => frame@.len() == 0 || frame@.len() != frame_len_bytes(
                frame@[0],
            ),
            Err(ParseError::UnsupportedFormat) => {
                &&& frame@.len() >= 1
                &&& frame@.len() == frame_len_bytes(frame@[0])
                &&& !supported_df(downlink_format(frame@[0]))
            },
        },
{
    let n: usize = frame.len();
    if n == 0 {
        return Err(ParseError::Length);
    }
    let df: u8 = frame[0] / 8;
    let expected: usize = if df == 16 || df == 17 || df == 19 || df == 20 || df == 21 {
        14
    } else {
        7
    };
    if n != expected {
        return Err(ParseError::Length);
    }
    let icao: u32 = if df == 11 || df == 17 {
        frame[1] as u32 * 65536 + frame[2] as u32 * 256 + frame[3] as u32
    } else {
        let crc: u32 = modes_checksum(frame);
        let trailing: u32 = frame[n - 3] as u32 * 65536 + frame[n - 2] as u32 * 256 + frame[n
            - 1] as u32;
        proof {
            let t = frame@.subrange(frame@.len() - 3, frame@.len() as int);
            assert(t[0] == frame@[frame@.len() - 3]);
            assert(t[1] == frame@[frame@.len() - 2]);
            assert(t[2] == frame@[frame@.len() - 1]);
        }
        crc ^ trailing
    };
    let kind: MessageKind = if df == 0 {
        MessageKind::ShortAirAir { altitude: decode_alt13(code13(frame)) }
    } else if df == 4 {
        MessageKind::SurveillanceAltitude { altitude: decode_alt13(code13(frame)) }
    } else if df == 5 {
        MessageKind::SurveillanceIdentity { squawk: decode_squawk(code13(frame)) }
    } else if df == 11 {
        MessageKind::AllCallReply
    } else if df == 16 {
        MessageKind::LongAirAir { altitude: decode_alt13(code13(frame)) }
    } else if df == 17 {
        MessageKind::ExtendedSquitter(decode_adsb_kind(frame))
    } else if df == 20 {
        MessageKind::CommBAltitude { altitude: decode_alt13(code13(frame)) }
    } else if df == 21 {
        MessageKind::CommBIdentity { squawk: decode_squawk(code13(frame)) }
    } else {
        return Err(ParseError::UnsupportedFormat);
    };
    Ok(Message { icao, downlink_format: df, kind })
}

impl crate::mode_s::Frame {
    /// Parses the frame; a rejected frame is a soft error and yields
    /// nothing.
    pub fn parse(&self) -> (r: Option<Message>)
        ensures
            match r {
                Some(m) => {
                    &&& self.0@.len() >= 1
                    &&& self.0@.len() == frame_len_bytes(self.0@[0])
                    &&& supported_df(downlink_format(self.0@[0]))
                    &&& m.downlink_format == downlink_format(self.0@[0])
                    &&& m.icao == spec_icao(self.0@)
                    &&& kind_matches(self.0@, m.kind)
                },
                None => self.0@.len() == 0 || self.0@.len() != frame_len_bytes(self.0@[0])
                    || !supported_df(downlink_format(self.0@[0])),
            },
    {
        match parse(&self.0) {
            Ok(m) => Some(m),
            Err(_) => None,
        }
    }
}

} // verus!
