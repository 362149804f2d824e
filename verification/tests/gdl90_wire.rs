use fishfinder::gdl90::{
    decode, fcs_crc16_compute, string_to_sized_vec, tas_to_u8, address_type_to_u8, make_heartbeat,
    Encoder, ForeflightIdentify, Heartbeat, HeartbeatStatus, Message, OwnshipGeometricAltitude,
    Traffic, TrafficAddressType, TrafficAlertStatus,
};

fn sample_traffic() -> Traffic {
    Traffic {
        traffic_alert_status: TrafficAlertStatus::NoAlert,
        address_type: TrafficAddressType::ADSBWithIcao,
        participant_address: 0xABCDEF,
        latitude: 1760438,
        longitude: -5705158,
        altitude: 100,
        misc: 9,
        nic: 8,
        nacp: 8,
        horiz_velocity: 0,
        vert_velocity: 0,
        track: 0,
        emitter_category: 1,
        callsign: vec![b'N', b'1', b'2', b'3', b'A', b'B', 0, 0],
    }
}

/// Strips the flags and undoes the escaping, by hand.
fn unescape_wire(wire: &[u8]) -> Vec<u8> {
    assert_eq!(wire[0], 0x7E);
    assert_eq!(wire[wire.len() - 1], 0x7E);
    let mut out = Vec::new();
    let mut i = 1;
    while i < wire.len() - 1 {
        if wire[i] == 0x7D {
            out.push(wire[i + 1] ^ 0x20);
            i += 2;
        } else {
            out.push(wire[i]);
            i += 1;
        }
    }
    out
}

#[test]
fn traffic_payload_matches_expected_hex() {
    let t = sample_traffic();
    let mut wire = Vec::new();
    Encoder::new().encode(&Message::TrafficReport(t), &mut wire);
    let region = unescape_wire(&wire);
    assert_eq!(region[0], 20);
    let payload = &region[1..region.len() - 2];
    let expected = "00abcdef1adcb6a8f23a06498800000000014e3132334142000000";
    let mut expected_bytes = Vec::new();
    let chars: Vec<u8> = expected.bytes().collect();
    for pair in chars.chunks(2) {
        let hi = (pair[0] as char).to_digit(16).unwrap() as u8;
        let lo = (pair[1] as char).to_digit(16).unwrap() as u8;
        expected_bytes.push(hi * 16 + lo);
    }
    assert_eq!(payload.len(), 27);
    assert_eq!(payload, &expected_bytes[..]);
}

#[test]
fn wire_frame_is_flagged_and_crc_checked() {
    let t = sample_traffic();
    let mut wire = Vec::new();
    Encoder::new().encode(&Message::TrafficReport(t), &mut wire);
    assert_eq!(wire[0], 0x7E);
    assert_eq!(wire[wire.len() - 1], 0x7E);
    for i in 1..wire.len() - 1 {
        assert_ne!(wire[i], 0x7E);
        if wire[i] == 0x7D {
            assert!(wire[i + 1] == 0x5D || wire[i + 1] == 0x5E);
        }
    }
    let region = unescape_wire(&wire);
    let inner = region[..region.len() - 2].to_vec();
    let crc = fcs_crc16_compute(&inner);
    assert_eq!(region[region.len() - 2], (crc % 256) as u8);
    assert_eq!(region[region.len() - 1], (crc / 256) as u8);
}

#[test]
fn traffic_report_round_trips() {
    let t = sample_traffic();
    let mut wire = Vec::new();
    Encoder::new().encode(&Message::TrafficReport(t.clone()), &mut wire);
    match decode(&wire) {
        Some(Message::TrafficReport(t2)) => {
            assert_eq!(tas_to_u8(&t2.traffic_alert_status), 0);
            assert_eq!(address_type_to_u8(&t2.address_type), 0);
            assert_eq!(t2.participant_address, 0xABCDEF);
            assert_eq!(t2.latitude, 1760438);
            assert_eq!(t2.longitude, -5705158);
            assert_eq!(t2.altitude, 100);
            assert_eq!(t2.misc, 9);
            assert_eq!(t2.nic, 8);
            assert_eq!(t2.nacp, 8);
            assert_eq!(t2.horiz_velocity, 0);
            assert_eq!(t2.vert_velocity, 0);
            assert_eq!(t2.track, 0);
            assert_eq!(t2.emitter_category, 1);
            assert_eq!(t2.callsign, t.callsign);
        }
        _ => panic!("expected a traffic report"),
    }
}

#[test]
fn heartbeat_round_trips_and_has_exact_payload() {
    let h = Heartbeat {
        status: HeartbeatStatus::new(),
        timestamp: 40000,
        msg_counts: 7,
    };
    let mut wire = Vec::new();
    Encoder::new().encode(&Message::Heartbeat(h), &mut wire);
    let region = unescape_wire(&wire);
    assert_eq!(region[0], 0);
    let payload = &region[1..region.len() - 2];
    // status bytes, then 0x9C40 and 0x0007 little-endian
    assert_eq!(payload, &[0x01, 0x00, 0x40, 0x9C, 0x07, 0x00]);
    match decode(&wire) {
        Some(Message::Heartbeat(h2)) => {
            assert!(h2.status.uat_initialized);
            assert!(!h2.status.gps_pos_valid);
            assert_eq!(h2.timestamp, 40000);
            assert_eq!(h2.msg_counts, 7);
        }
        _ => panic!("expected a heartbeat"),
    }
}

#[test]
fn foreflight_identify_round_trips() {
    let name = vec![b'f', b'i', b's', b'h'];
    let long = vec![b'f', b'i', b's', b'h', b'f', b'i', b'n', b'd', b'e', b'r'];
    let f = ForeflightIdentify::new(1, 0xFFFFFFFFFFFFFFFF, &name, &long, 1);
    let mut wire = Vec::new();
    Encoder::new().encode(&Message::ForeflightIdentify(f), &mut wire);
    let region = unescape_wire(&wire);
    assert_eq!(region[0], 0x65);
    assert_eq!(region[1], 0); // sub-id
    assert_eq!(region.len(), 1 + 38 + 2);
    match decode(&wire) {
        Some(Message::ForeflightIdentify(f2)) => {
            assert_eq!(f2.version, 1);
            assert_eq!(f2.serial_number, 0xFFFFFFFFFFFFFFFF);
            assert_eq!(f2.device_name, vec![b'f', b'i', b's', b'h', 0, 0, 0, 0]);
            assert_eq!(f2.device_name_long.len(), 16);
            assert_eq!(&f2.device_name_long[..10], b"fishfinder");
            assert_eq!(f2.capabilities, 1);
        }
        _ => panic!("expected a foreflight identify"),
    }
}

#[test]
fn ownship_and_geometric_altitude_round_trip() {
    let mut wire = Vec::new();
    Encoder::new().encode(&Message::OwnshipReport(sample_traffic()), &mut wire);
    assert!(matches!(decode(&wire), Some(Message::OwnshipReport(_))));
    let mut wire2 = Vec::new();
    Encoder::new().encode(
        &Message::OwnshipGeometricAltitude(OwnshipGeometricAltitude {}),
        &mut wire2,
    );
    assert!(matches!(
        decode(&wire2),
        Some(Message::OwnshipGeometricAltitude(_))
    ));
}

#[test]
fn flag_bytes_inside_payload_are_escaped() {
    let mut t = sample_traffic();
    t.participant_address = 0x7D7E05;
    let mut wire = Vec::new();
    Encoder::new().encode(&Message::TrafficReport(t), &mut wire);
    for i in 1..wire.len() - 1 {
        assert_ne!(wire[i], 0x7E);
    }
    // the address bytes 0x7D and 0x7E must appear escaped
    let mut found_escape = 0;
    for i in 1..wire.len() - 1 {
        if wire[i] == 0x7D && (wire[i + 1] == 0x5D || wire[i + 1] == 0x5E) {
            found_escape += 1;
        }
    }
    assert!(found_escape >= 2);
    match decode(&wire) {
        Some(Message::TrafficReport(t2)) => assert_eq!(t2.participant_address, 0x7D7E05),
        _ => panic!("expected a traffic report"),
    }
}

#[test]
fn corrupted_wire_frame_is_rejected() {
    let mut wire = Vec::new();
    Encoder::new().encode(&Message::TrafficReport(sample_traffic()), &mut wire);
    let mid = wire.len() / 2;
    let mut bad = wire.clone();
    bad[mid] ^= 0x01;
    // either the CRC or the structure breaks: never a silent wrong decode
    if let Some(Message::TrafficReport(t2)) = decode(&bad) {
        panic!(
            "corrupted frame decoded as traffic to {:x}",
            t2.participant_address
        );
    }
}

#[test]
fn fcs_crc16_has_known_value() {
    let data = vec![b'1', b'2', b'3', b'4', b'5', b'6', b'7', b'8', b'9'];
    assert_eq!(fcs_crc16_compute(&data), 0xBEEF);
    let empty: Vec<u8> = Vec::new();
    assert_eq!(fcs_crc16_compute(&empty), 0);
}

#[test]
fn make_heartbeat_splits_the_timestamp() {
    match make_heartbeat(70000, 3) {
        Message::Heartbeat(h) => {
            assert_eq!(h.timestamp, 4464);
            assert!(h.status.timestamp_msb);
            assert_eq!(h.msg_counts, 3);
        }
        _ => panic!("expected a heartbeat"),
    }
    match make_heartbeat(40000, 0) {
        Message::Heartbeat(h) => {
            assert_eq!(h.timestamp, 40000);
            assert!(!h.status.timestamp_msb);
        }
        _ => panic!("expected a heartbeat"),
    }
}

#[test]
fn string_to_sized_vec_pads_and_cuts() {
    let s = vec![b'a', b'b', b'c'];
    assert_eq!(string_to_sized_vec(8, &s), vec![b'a', b'b', b'c', 0, 0, 0, 0, 0]);
    let long = vec![b'x'; 20];
    assert_eq!(string_to_sized_vec(16, &long), vec![b'x'; 16]);
}
