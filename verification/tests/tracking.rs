use fishfinder::adsb::parse;
use fishfinder::clients::{ClientAddr, ClientSet, CLIENT_PORT};
use fishfinder::tracker::Tracker;

const CANONICAL: [u8; 14] = [
    0x8D, 0x48, 0x40, 0xD6, 0x20, 0x2C, 0xC3, 0x71, 0xC3, 0x2C, 0xE0, 0x57, 0x60, 0x98,
];

#[test]
fn tracker_upserts_and_counts_messages() {
    let msg = parse(&CANONICAL.to_vec()).expect("parses");
    let mut t = Tracker::new();
    t.process(&msg, 100);
    assert_eq!(t.len(), 1);
    let a = t.get(0x4840D6).expect("tracked");
    assert_eq!(a.icao, 0x4840D6);
    assert_eq!(a.msg_count, 1);
    assert_eq!(a.last_seen, 100);
    assert_eq!(a.callsign.as_ref().expect("callsign"), &b"KLM1023 ".to_vec());
    t.process(&msg, 130);
    assert_eq!(t.len(), 1);
    let a = t.get(0x4840D6).expect("tracked");
    assert_eq!(a.msg_count, 2);
    assert_eq!(a.last_seen, 130);
}

#[test]
fn tracker_merges_position_fields() {
    let pos = vec![
        0x8D, 0xAB, 0xCD, 0xEF, 0x58, 0xC3, 0x82, 0xD6, 0x90, 0xC8, 0xAC, 0x00, 0x00, 0x00,
    ];
    let msg = parse(&pos).expect("parses");
    let mut t = Tracker::new();
    t.process(&msg, 5);
    let a = t.get(0xABCDEF).expect("tracked");
    assert_eq!(a.altitude, Some(38000));
    assert_eq!(a.on_ground, Some(false));
    let even = a.cpr_even.expect("even frame stored");
    assert_eq!(even.lat_cpr, 93000);
    assert_eq!(even.lon_cpr, 51372);
    assert_eq!(even.time, 5);
    assert!(a.cpr_odd.is_none());
}

#[test]
fn eviction_removes_only_silent_aircraft() {
    let msg = parse(&CANONICAL.to_vec()).expect("parses");
    let pos = vec![
        0x8D, 0xAB, 0xCD, 0xEF, 0x58, 0xC3, 0x82, 0xD6, 0x90, 0xC8, 0xAC, 0x00, 0x00, 0x00,
    ];
    let msg2 = parse(&pos).expect("parses");
    let mut t = Tracker::new();
    t.process(&msg, 100);
    t.process(&msg2, 150);
    assert_eq!(t.len(), 2);
    // at t=160 both are fresh (within 60 s)
    t.evict(160);
    assert_eq!(t.len(), 2);
    // at t=161 the first has been silent for 61 s
    t.evict(161);
    assert_eq!(t.len(), 1);
    assert!(t.get(0x4840D6).is_none());
    assert!(t.get(0xABCDEF).is_some());
    // order of first sighting is kept for the survivors
    assert_eq!(t.icaos(), &vec![0xABCDEFu32]);
}

#[test]
fn traffic_report_carries_tracked_fields() {
    let msg = parse(&CANONICAL.to_vec()).expect("parses");
    let mut t = Tracker::new();
    t.process(&msg, 100);
    let a = t.get(0x4840D6).expect("tracked");
    let report = a.traffic_report();
    assert_eq!(report.participant_address, 0x4840D6);
    assert_eq!(report.callsign, b"KLM1023 ".to_vec());
    assert_eq!(report.altitude, 4095); // none known yet
    assert_eq!(report.latitude, 0);
    assert_eq!(report.longitude, 0);
}

#[test]
fn discovery_inserts_each_client_once() {
    let mut set = ClientSet::new();
    assert!(set.on_datagram(0xC0000205)); // 192.0.2.5
    assert!(!set.on_datagram(0xC0000205));
    assert!(set.on_datagram(0xC0000206));
    assert_eq!(set.addrs().len(), 2);
    assert_eq!(
        set.addrs()[0],
        ClientAddr { ip: 0xC0000205, port: CLIENT_PORT }
    );
    assert_eq!(CLIENT_PORT, 4000);
}

#[test]
fn send_failure_removes_the_client() {
    let mut set = ClientSet::new();
    set.on_datagram(0xC0000205);
    set.on_datagram(0xC0000206);
    set.on_send_failure(ClientAddr { ip: 0xC0000205, port: CLIENT_PORT });
    assert_eq!(set.addrs().len(), 1);
    assert!(!set.contains(ClientAddr { ip: 0xC0000205, port: CLIENT_PORT }));
    assert!(set.contains(ClientAddr { ip: 0xC0000206, port: CLIENT_PORT }));
    // removing an absent client changes nothing
    set.on_send_failure(ClientAddr { ip: 0xC0000205, port: CLIENT_PORT });
    assert_eq!(set.addrs().len(), 1);
}

#[test]
fn mode_s_frame_survives_the_gdl90_round_trip() {
    // frame -> parse -> tracker -> traffic report -> GDL-90 wire -> decode
    let msg = parse(&CANONICAL.to_vec()).expect("parses");
    let mut t = Tracker::new();
    t.process(&msg, 100);
    let report = t.get(0x4840D6).expect("tracked").traffic_report();
    let mut wire = Vec::new();
    fishfinder::gdl90::Encoder::new()
        .encode(&fishfinder::gdl90::Message::TrafficReport(report), &mut wire);
    match fishfinder::gdl90::decode(&wire) {
        Some(fishfinder::gdl90::Message::TrafficReport(t2)) => {
            assert_eq!(t2.participant_address, 0x4840D6);
            assert_eq!(t2.callsign, b"KLM1023 ".to_vec());
            assert_eq!(t2.altitude, 4095);
            assert_eq!(t2.latitude, 0);
            assert_eq!(t2.longitude, 0);
        }
        _ => panic!("expected a traffic report"),
    }
}

#[test]
fn cpr_pair_needs_both_frames_within_the_window() {
    let even = vec![
        0x8D, 0xAB, 0xCD, 0xEF, 0x58, 0xC3, 0x82, 0xD6, 0x90, 0xC8, 0xAC, 0x00, 0x00, 0x00,
    ];
    // same frame with the odd-format flag (byte 6 bit 2) set
    let mut odd = even.clone();
    odd[6] |= 0x04;
    let mut t = Tracker::new();
    t.process(&parse(&even).expect("parses"), 100);
    assert!(t.get(0xABCDEF).expect("tracked").cpr_pair().is_none());
    t.process(&parse(&odd).expect("parses"), 105);
    let (e, o) = t.get(0xABCDEF).expect("tracked").cpr_pair().expect("paired");
    assert_eq!(e.time, 100);
    assert_eq!(o.time, 105);
    // a pair further apart than 10 s is not offered for decoding
    t.process(&parse(&even).expect("parses"), 130);
    assert!(t.get(0xABCDEF).expect("tracked").cpr_pair().is_none());
}

#[test]
fn set_position_updates_only_the_position() {
    let msg = parse(&CANONICAL.to_vec()).expect("parses");
    let mut t = Tracker::new();
    t.process(&msg, 100);
    t.set_position(0x4840D6, 1760438, -5705158);
    let a = t.get(0x4840D6).expect("tracked");
    assert_eq!(a.latitude, Some(1760438));
    assert_eq!(a.longitude, Some(-5705158));
    assert_eq!(a.msg_count, 1);
    assert_eq!(a.callsign.as_ref().expect("callsign"), &b"KLM1023 ".to_vec());
    let report = a.traffic_report();
    assert_eq!(report.latitude, 1760438);
    assert_eq!(report.longitude, -5705158);
    // setting the position of an untracked aircraft changes nothing
    t.set_position(0x111111, 1, 2);
    assert_eq!(t.len(), 1);
}
