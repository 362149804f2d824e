use fishfinder::adsb::{parse, AdsbKind, MessageKind, ParseError};
use fishfinder::crc::modes_checksum;

const CANONICAL: [u8; 14] = [
    0x8D, 0x48, 0x40, 0xD6, 0x20, 0x2C, 0xC3, 0x71, 0xC3, 0x2C, 0xE0, 0x57, 0x60, 0x98,
];

#[test]
fn canonical_identification_parses() {
    let m = parse(&CANONICAL.to_vec()).expect("parses");
    assert_eq!(m.downlink_format, 17);
    assert_eq!(m.icao, 0x4840D6);
    match m.kind {
        MessageKind::ExtendedSquitter(AdsbKind::AircraftIdentification {
            type_code,
            category,
            callsign,
        }) => {
            assert_eq!(type_code, 4);
            assert_eq!(category, 0);
            assert_eq!(callsign, b"KLM1023 ".to_vec());
        }
        _ => panic!("expected an aircraft identification"),
    }
}

#[test]
fn df4_altitude_and_overlaid_icao() {
    let f = vec![0x20, 0x00, 0x19, 0x10, 0xBC, 0x45, 0xF9];
    let m = parse(&f).expect("parses");
    assert_eq!(m.downlink_format, 4);
    // the ICAO address is overlaid on the parity field
    let trailing = ((f[4] as u32) << 16) | ((f[5] as u32) << 8) | f[6] as u32;
    assert_eq!(m.icao, modes_checksum(&f) ^ trailing);
    assert_eq!(m.icao, 0xA27AFE);
    match m.kind {
        MessageKind::SurveillanceAltitude { altitude } => assert_eq!(altitude, Some(39000)),
        _ => panic!("expected a surveillance altitude reply"),
    }
}

#[test]
fn df5_squawk_7500() {
    let f = vec![0x28, 0x00, 0x0A, 0xA2, 0x00, 0x00, 0x00];
    let m = parse(&f).expect("parses");
    match m.kind {
        MessageKind::SurveillanceIdentity { squawk } => assert_eq!(squawk, 7500),
        _ => panic!("expected a surveillance identity reply"),
    }
}

#[test]
fn df11_icao_from_bytes_1_to_4() {
    let f = vec![0x58, 0x4B, 0x1A, 0x9F, 0x00, 0x00, 0x00];
    let m = parse(&f).expect("parses");
    assert_eq!(m.downlink_format, 11);
    assert_eq!(m.icao, 0x4B1A9F);
    assert!(matches!(m.kind, MessageKind::AllCallReply));
}

#[test]
fn airborne_position_fields() {
    let f = vec![
        0x8D, 0xAB, 0xCD, 0xEF, 0x58, 0xC3, 0x82, 0xD6, 0x90, 0xC8, 0xAC, 0x00, 0x00, 0x00,
    ];
    let m = parse(&f).expect("parses");
    assert_eq!(m.icao, 0xABCDEF);
    match m.kind {
        MessageKind::ExtendedSquitter(AdsbKind::AirbornePosition {
            altitude,
            gnss,
            odd,
            lat_cpr,
            lon_cpr,
        }) => {
            assert_eq!(altitude, Some(38000));
            assert!(!gnss);
            assert!(!odd);
            assert_eq!(lat_cpr, 93000);
            assert_eq!(lon_cpr, 51372);
        }
        _ => panic!("expected an airborne position"),
    }
}

#[test]
fn airborne_velocity_fields() {
    let f = vec![
        0x8D, 0x4B, 0x1A, 0x00, 0x99, 0x06, 0x34, 0xA3, 0x6B, 0x48, 0x00, 0x00, 0x00, 0x00,
    ];
    let m = parse(&f).expect("parses");
    match m.kind {
        MessageKind::ExtendedSquitter(AdsbKind::AirborneVelocity {
            subtype,
            ew_sign,
            ew_raw,
            ns_sign,
            ns_raw,
            vr_sign,
            vr_raw,
        }) => {
            assert_eq!(subtype, 1);
            assert!(ew_sign);
            assert_eq!(ew_raw, 564);
            assert!(ns_sign);
            assert_eq!(ns_raw, 283);
            assert!(vr_sign);
            assert_eq!(vr_raw, 210);
        }
        _ => panic!("expected an airborne velocity"),
    }
}

#[test]
fn surface_position_fields() {
    let f = vec![
        0x8D, 0x4B, 0x1A, 0x00, 0x32, 0x5C, 0x21, 0x10, 0x08, 0x01, 0x02, 0x00, 0x00, 0x00,
    ];
    let m = parse(&f).expect("parses");
    match m.kind {
        MessageKind::ExtendedSquitter(AdsbKind::SurfacePosition {
            movement,
            track_valid,
            track,
            odd,
            lat_cpr,
            lon_cpr,
        }) => {
            assert_eq!(movement, 37);
            assert!(track_valid);
            assert_eq!(track, 66);
            assert!(!odd);
            assert_eq!(lat_cpr, 34820);
            assert_eq!(lon_cpr, 258);
        }
        _ => panic!("expected a surface position"),
    }
}

#[test]
fn wrong_length_is_rejected() {
    // DF 17 declares 14 bytes; a 7-byte frame with that DF is malformed
    let f = vec![0x8D, 0x4B, 0x1A, 0x00, 0x00, 0x00, 0x00];
    assert_eq!(parse(&f).err(), Some(ParseError::Length));
    let empty: Vec<u8> = Vec::new();
    assert_eq!(parse(&empty).err(), Some(ParseError::Length));
}

#[test]
fn unsupported_formats_are_rejected() {
    // DF 9, correct short length
    let f = vec![0x48, 0x00, 0x00, 0x00, 0x00, 0x00, 0x00];
    assert_eq!(parse(&f).err(), Some(ParseError::UnsupportedFormat));
    // DF 19, correct long length
    let g = vec![0x98u8, 0, 0, 0, 0, 0, 0, 0, 0, 0, 0, 0, 0, 0];
    assert_eq!(parse(&g).err(), Some(ParseError::UnsupportedFormat));
}

#[test]
fn frame_to_hex_renders_lowercase() {
    let frame = fishfinder::mode_s::Frame(CANONICAL.to_vec());
    assert_eq!(frame.to_hex(), "8d4840d6202cc371c32ce0576098".to_string());
}
