//! GDL-90 messages and wire framing: Heartbeat, ownship and traffic
//! reports, and the Foreflight identify extension.  A wire frame is
//! `0x7E | id | payload | crc16-le | 0x7E`, with every 0x7D or 0x7E
//! inside the framed region escaped as `0x7D, byte ^ 0x20`, and the
//! CRC-CCITT (polynomial 0x1021, init 0) taken over `id || payload`
//! before escaping.

use vstd::prelude::*;

verus! {

/// Status bits of the heartbeat, one field per wire bit.
#[derive(Clone, Copy)]
pub struct HeartbeatStatus {
    pub uat_initialized: bool,
    pub ratcs: bool,
    pub gps_batt_low: bool,
    pub addr_type: bool,
    pub ident: bool,
    pub maintainance_required: bool,
    pub gps_pos_valid: bool,
    pub utc_ok: bool,
    pub csa_not_available: bool,
    pub csa_not_requested: bool,
    pub timestamp_msb: bool,
}

impl HeartbeatStatus {
    /// The power-on default: UAT initialized, everything else clear.
    pub fn new() -> (r: HeartbeatStatus)
        ensures
            r.uat_initialized,
            !r.ratcs && !r.gps_batt_low && !r.addr_type && !r.ident && !r.maintainance_required
                && !r.gps_pos_valid && !r.utc_ok && !r.csa_not_available && !r.csa_not_requested
                && !r.timestamp_msb,
    {
        HeartbeatStatus {
            uat_initialized: true,
            ratcs: false,
            gps_batt_low: false,
            addr_type: false,
            ident: false,
            maintainance_required: false,
            gps_pos_valid: false,
            utc_ok: false,
            csa_not_available: false,
            csa_not_requested: false,
            timestamp_msb: false,
        }
    }
}

impl Default for HeartbeatStatus {
    /// The power-on default, as `new` builds it.
    fn default() -> (r: HeartbeatStatus)
        ensures
            r.uat_initialized,
            !r.ratcs && !r.gps_batt_low && !r.addr_type && !r.ident && !r.maintainance_required
                && !r.gps_pos_valid && !r.utc_ok && !r.csa_not_available && !r.csa_not_requested
                && !r.timestamp_msb,
    {
        HeartbeatStatus::new()
    }
}

/// Heartbeat: two status bytes, then timestamp and message count,
/// both 16-bit little-endian.
#[derive(Clone, Copy)]
pub struct Heartbeat {
    pub status: HeartbeatStatus,
    pub timestamp: u16,
    pub msg_counts: u16,
}

impl Heartbeat {
    pub fn new() -> (r: Heartbeat)
        ensures
            r.status.uat_initialized,
            r.timestamp == 0,
            r.msg_counts == 0,
    {
        Heartbeat { status: HeartbeatStatus::new(), timestamp: 0, msg_counts: 0 }
    }
}

impl Default for Heartbeat {
    /// An all-zero heartbeat with the default status bits.
    fn default() -> (r: Heartbeat)
        ensures
            r.status.uat_initialized,
            r.timestamp == 0,
            r.msg_counts == 0,
    {
        Heartbeat::new()
    }
}

/// Ownship geometric altitude; carries no payload bytes here.
#[derive(Clone, Copy)]
pub struct OwnshipGeometricAltitude {}

#[derive(Clone, Copy, PartialEq, Eq, Structural)]
pub enum TrafficAlertStatus {
    NoAlert,
    Alert,
}

/// Wire value of the traffic-alert-status nibble.
pub open spec fn spec_tas(a: TrafficAlertStatus) -> u8 {
    match a {
        TrafficAlertStatus::NoAlert => 0,
        TrafficAlertStatus::Alert => 1,
    }
}

pub fn tas_to_u8(a: &TrafficAlertStatus) -> (r: u8)
    ensures
        r == spec_tas(*a),
{
    match a {
        TrafficAlertStatus::NoAlert => 0,
        TrafficAlertStatus::Alert => 1,
    }
}

#[derive(Clone, Copy, PartialEq, Eq, Structural)]
pub enum TrafficAddressType {
    ADSBWithIcao,
    ADSBWithSelfAssigned,
    TISBWithIcao,
    TISBWithTrackFile,
    SurfaceVehicle,
    GroundStationBeacon,
}

/// Wire value of the address-type nibble.
pub open spec fn spec_address_type(a: TrafficAddressType) -> u8 {
    match a {
        TrafficAddressType::ADSBWithIcao => 0,
        TrafficAddressType::ADSBWithSelfAssigned => 1,
        TrafficAddressType::TISBWithIcao => 2,
        TrafficAddressType::TISBWithTrackFile => 3,
        TrafficAddressType::SurfaceVehicle => 4,
        TrafficAddressType::GroundStationBeacon => 5,
    }
}

pub fn address_type_to_u8(a: &TrafficAddressType) -> (r: u8)
    ensures
        r == spec_address_type(*a),
{
    match a {
        TrafficAddressType::ADSBWithIcao => 0,
        TrafficAddressType::ADSBWithSelfAssigned => 1,
        TrafficAddressType::TISBWithIcao => 2,
        TrafficAddressType::TISBWithTrackFile => 3,
        TrafficAddressType::SurfaceVehicle => 4,
        TrafficAddressType::GroundStationBeacon => 5,
    }
}

/// A traffic (or ownship) report.  Latitude and longitude are 24-bit
/// signed semicircle fractions (180 degrees / 2^23 per unit); altitude
/// and the velocities are the already-encoded 12-bit wire fields.
#[derive(Clone)]
pub struct Traffic {
    pub traffic_alert_status: TrafficAlertStatus,
    pub address_type: TrafficAddressType,
    pub participant_address: u32,
    pub latitude: i32,
    pub longitude: i32,
    pub altitude: u16,
    pub misc: u8,
    pub nic: u8,
    pub nacp: u8,
    pub horiz_velocity: u16,
    pub vert_velocity: u16,
    pub track: u8,
    pub emitter_category: u8,
    pub callsign: Vec<u8>,
}

impl Traffic {
    /// Field ranges of the packed wire encoding.
    pub open spec fn wf(&self) -> bool {
        &&& self.participant_address < 0x1000000
        &&& -0x800000 <= self.latitude < 0x800000
        &&& -0x800000 <= self.longitude < 0x800000
        &&& self.altitude < 4096
        &&& self.misc < 16
        &&& self.nic < 16
        &&& self.nacp < 16
        &&& self.horiz_velocity < 4096
        &&& self.vert_velocity < 4096
        &&& self.callsign@.len() == 8
    }
}

/// The Foreflight identify message: version, serial (big-endian,
/// all-ones when unavailable), fixed-width zero-padded names, and a
/// capabilities word (big-endian).
#[derive(Clone)]
pub struct ForeflightIdentify {
    pub version: u8,
    pub serial_number: u64,
    pub device_name: Vec<u8>,
    pub device_name_long: Vec<u8>,
    pub capabilities: u32,
}

impl ForeflightIdentify {
    pub open spec fn wf(&self) -> bool {
        &&& self.device_name@.len() == 8
        &&& self.device_name_long@.len() == 16
    }
}

/// Foreflight AHRS extension; not emitted here.
#[derive(Clone, Copy)]
pub struct ForeflightAHRS {}

/// A GDL-90 message, tagged with its wire identifier.
#[derive(Clone)]
pub enum Message {
    Heartbeat(Heartbeat),
    OwnshipReport(Traffic),
    OwnshipGeometricAltitude(OwnshipGeometricAltitude),
    TrafficReport(Traffic),
    ForeflightIdentify(ForeflightIdentify),
}

impl Message {
    pub open spec fn wf(&self) -> bool {
        match self {
            Message::Heartbeat(_) => true,
            Message::OwnshipReport(t) => t.wf(),
            Message::OwnshipGeometricAltitude(_) => true,
            Message::TrafficReport(t) => t.wf(),
            Message::ForeflightIdentify(f) => f.wf(),
        }
    }
}

/// The message identifier that precedes the payload on the wire.
pub open spec fn spec_message_id(m: Message) -> u8 {
    match m {
        Message::Heartbeat(_) => 0,
        Message::OwnshipReport(_) => 10,
        Message::OwnshipGeometricAltitude(_) => 11,
        Message::TrafficReport(_) => 20,
        Message::ForeflightIdentify(_) => 0x65,
    }
}

/// 1 when the flag is set, else 0, weighted by the bit's wire value.
pub open spec fn flag_bit(b: bool, weight: u8) -> u8 {
    if b {
        weight
    } else {
        0u8
    }
}

/// First status byte of the heartbeat.
pub open spec fn spec_status_b1(st: HeartbeatStatus) -> u8 {
    (flag_bit(st.uat_initialized, 1) + flag_bit(st.ratcs, 4) + flag_bit(st.gps_batt_low, 8)
        + flag_bit(st.addr_type, 16) + flag_bit(st.ident, 32) + flag_bit(
        st.maintainance_required,
        64,
    ) + flag_bit(st.gps_pos_valid, 128)) as u8
}

/// Second status byte of the heartbeat.
pub open spec fn spec_status_b2(st: HeartbeatStatus) -> u8 {
    (flag_bit(st.utc_ok, 1) + flag_bit(st.csa_not_available, 32) + flag_bit(
        st.csa_not_requested,
        64,
    ) + flag_bit(st.timestamp_msb, 128)) as u8
}

/// The two status bytes of the heartbeat.
pub open spec fn spec_status_bytes(st: HeartbeatStatus) -> Seq<u8> {
    seq![spec_status_b1(st), spec_status_b2(st)]
}

/// 16-bit little-endian bytes.
pub open spec fn u16_le(x: u16) -> Seq<u8> {
    seq![(x % 256) as u8, (x / 256) as u8]
}

/// 24-bit big-endian bytes of a value below 2^24.
pub open spec fn u24_be(x: u32) -> Seq<u8>
    recommends
        x < 0x1000000,
{
    seq![(x / 65536) as u8, ((x / 256) % 256) as u8, (x % 256) as u8]
}

/// 32-bit big-endian bytes.
pub open spec fn u32_be(x: u32) -> Seq<u8> {
    seq![
        (x / 0x1000000) as u8,
        ((x / 65536) % 256) as u8,
        ((x / 256) % 256) as u8,
        (x % 256) as u8,
    ]
}

/// 64-bit big-endian bytes: the high word, then the low word.
pub open spec fn u64_be(x: u64) -> Seq<u8> {
    u32_be((x / 0x100000000) as u32) + u32_be((x % 0x100000000) as u32)
}

/// A signed 24-bit fraction as its unsigned two's-complement wire value.
pub open spec fn sem24(v: i32) -> u32
    recommends
        -0x800000 <= v < 0x800000,
{
    if v >= 0 {
        v as u32
    } else {
        (v + 0x1000000) as u32
    }
}

/// Heartbeat payload: status bytes, timestamp, message count.
pub open spec fn spec_heartbeat_payload(h: Heartbeat) -> Seq<u8> {
    spec_status_bytes(h.status) + u16_le(h.timestamp) + u16_le(h.msg_counts)
}

/// Traffic-report payload: 27 bytes of packed fields, with a trailing
/// spare byte.
pub open spec fn spec_traffic_payload(t: Traffic) -> Seq<u8> {
    seq![(spec_tas(t.traffic_alert_status) * 16 + spec_address_type(t.address_type)) as u8]
        + u24_be(t.participant_address) + u24_be(sem24(t.latitude)) + u24_be(sem24(t.longitude))
        + seq![
        (t.altitude / 16) as u8,
        ((t.altitude % 16) * 16 + t.misc) as u8,
        (t.nic * 16 + t.nacp) as u8,
        (t.horiz_velocity / 16) as u8,
        ((t.horiz_velocity % 16) * 16 + t.vert_velocity / 256) as u8,
        (t.vert_velocity % 256) as u8,
        t.track,
        t.emitter_category,
    ] + t.callsign@ + seq![0u8]
}

/// Foreflight identify payload: sub-id 0, version, serial, the two
/// zero-padded names, capabilities.
pub open spec fn spec_foreflight_payload(f: ForeflightIdentify) -> Seq<u8> {
    seq![0u8, f.version] + u64_be(f.serial_number) + f.device_name@ + f.device_name_long@
        + u32_be(f.capabilities)
}

/// The payload bytes of a message, before framing.
pub open spec fn spec_payload(m: Message) -> Seq<u8> {
    match m {
        Message::Heartbeat(h) => spec_heartbeat_payload(h),
        Message::OwnshipReport(t) => spec_traffic_payload(t),
        Message::OwnshipGeometricAltitude(_) => Seq::empty(),
        Message::TrafficReport(t) => spec_traffic_payload(t),
        Message::ForeflightIdentify(f) => spec_foreflight_payload(f),
    }
}

/// Identifier and payload: the region the CRC-16 covers.
pub open spec fn spec_inner(m: Message) -> Seq<u8> {
    seq![spec_message_id(m)] + spec_payload(m)
}


/// The 256-entry CRC-CCITT table (polynomial 0x1021), as a sequence.
pub open spec fn fcs_table_spec() -> Seq<u16> {
    seq![
        0x0000, 0x1021, 0x2042, 0x3063, 0x4084, 0x50a5, 0x60c6, 0x70e7,
        0x8108, 0x9129, 0xa14a, 0xb16b, 0xc18c, 0xd1ad, 0xe1ce, 0xf1ef,
        0x1231, 0x0210, 0x3273, 0x2252, 0x52b5, 0x4294, 0x72f7, 0x62d6,
        0x9339, 0x8318, 0xb37b, 0xa35a, 0xd3bd, 0xc39c, 0xf3ff, 0xe3de,
        0x2462, 0x3443, 0x0420, 0x1401, 0x64e6, 0x74c7, 0x44a4, 0x5485,
        0xa56a, 0xb54b, 0x8528, 0x9509, 0xe5ee, 0xf5cf, 0xc5ac, 0xd58d,
        0x3653, 0x2672, 0x1611, 0x0630, 0x76d7, 0x66f6, 0x5695, 0x46b4,
        0xb75b, 0xa77a, 0x9719, 0x8738, 0xf7df, 0xe7fe, 0xd79d, 0xc7bc,
        0x48c4, 0x58e5, 0x6886, 0x78a7, 0x0840, 0x1861, 0x2802, 0x3823,
        0xc9cc, 0xd9ed, 0xe98e, 0xf9af, 0x8948, 0x9969, 0xa90a, 0xb92b,
        0x5af5, 0x4ad4, 0x7ab7, 0x6a96, 0x1a71, 0x0a50, 0x3a33, 0x2a12,
        0xdbfd, 0xcbdc, 0xfbbf, 0xeb9e, 0x9b79, 0x8b58, 0xbb3b, 0xab1a,
        0x6ca6, 0x7c87, 0x4ce4, 0x5cc5, 0x2c22, 0x3c03, 0x0c60, 0x1c41,
        0xedae, 0xfd8f, 0xcdec, 0xddcd, 0xad2a, 0xbd0b, 0x8d68, 0x9d49,
        0x7e97, 0x6eb6, 0x5ed5, 0x4ef4, 0x3e13, 0x2e32, 0x1e51, 0x0e70,
        0xff9f, 0xefbe, 0xdfdd, 0xcffc, 0xbf1b, 0xaf3a, 0x9f59, 0x8f78,
        0x9188, 0x81a9, 0xb1ca, 0xa1eb, 0xd10c, 0xc12d, 0xf14e, 0xe16f,
        0x1080, 0x00a1, 0x30c2, 0x20e3, 0x5004, 0x4025, 0x7046, 0x6067,
        0x83b9, 0x9398, 0xa3fb, 0xb3da, 0xc33d, 0xd31c, 0xe37f, 0xf35e,
        0x02b1, 0x1290, 0x22f3, 0x32d2, 0x4235, 0x5214, 0x6277, 0x7256,
        0xb5ea, 0xa5cb, 0x95a8, 0x8589, 0xf56e, 0xe54f, 0xd52c, 0xc50d,
        0x34e2, 0x24c3, 0x14a0, 0x0481, 0x7466, 0x6447, 0x5424, 0x4405,
        0xa7db, 0xb7fa, 0x8799, 0x97b8, 0xe75f, 0xf77e, 0xc71d, 0xd73c,
        0x26d3, 0x36f2, 0x0691, 0x16b0, 0x6657, 0x7676, 0x4615, 0x5634,
        0xd94c, 0xc96d, 0xf90e, 0xe92f, 0x99c8, 0x89e9, 0xb98a, 0xa9ab,
        0x5844, 0x4865, 0x7806, 0x6827, 0x18c0, 0x08e1, 0x3882, 0x28a3,
        0xcb7d, 0xdb5c, 0xeb3f, 0xfb1e, 0x8bf9, 0x9bd8, 0xabbb, 0xbb9a,
        0x4a75, 0x5a54, 0x6a37, 0x7a16, 0x0af1, 0x1ad0, 0x2ab3, 0x3a92,
        0xfd2e, 0xed0f, 0xdd6c, 0xcd4d, 0xbdaa, 0xad8b, 0x9de8, 0x8dc9,
        0x7c26, 0x6c07, 0x5c64, 0x4c45, 0x3ca2, 0x2c83, 0x1ce0, 0x0cc1,
        0xef1f, 0xff3e, 0xcf5d, 0xdf7c, 0xaf9b, 0xbfba, 0x8fd9, 0x9ff8,
        0x6e17, 0x7e36, 0x4e55, 0x5e74, 0x2e93, 0x3eb2, 0x0ed1, 0x1ef0,
    ]
}

/// The same table as an executable vector.
fn fcs_table() -> (t: Vec<u16>)
    ensures
        t@ == fcs_table_spec(),
{
    let t: Vec<u16> = vec![
        0x0000, 0x1021, 0x2042, 0x3063, 0x4084, 0x50a5, 0x60c6, 0x70e7,
        0x8108, 0x9129, 0xa14a, 0xb16b, 0xc18c, 0xd1ad, 0xe1ce, 0xf1ef,
        0x1231, 0x0210, 0x3273, 0x2252, 0x52b5, 0x4294, 0x72f7, 0x62d6,
        0x9339, 0x8318, 0xb37b, 0xa35a, 0xd3bd, 0xc39c, 0xf3ff, 0xe3de,
        0x2462, 0x3443, 0x0420, 0x1401, 0x64e6, 0x74c7, 0x44a4, 0x5485,
        0xa56a, 0xb54b, 0x8528, 0x9509, 0xe5ee, 0xf5cf, 0xc5ac, 0xd58d,
        0x3653, 0x2672, 0x1611, 0x0630, 0x76d7, 0x66f6, 0x5695, 0x46b4,
        0xb75b, 0xa77a, 0x9719, 0x8738, 0xf7df, 0xe7fe, 0xd79d, 0xc7bc,
        0x48c4, 0x58e5, 0x6886, 0x78a7, 0x0840, 0x1861, 0x2802, 0x3823,
        0xc9cc, 0xd9ed, 0xe98e, 0xf9af, 0x8948, 0x9969, 0xa90a, 0xb92b,
        0x5af5, 0x4ad4, 0x7ab7, 0x6a96, 0x1a71, 0x0a50, 0x3a33, 0x2a12,
        0xdbfd, 0xcbdc, 0xfbbf, 0xeb9e, 0x9b79, 0x8b58, 0xbb3b, 0xab1a,
        0x6ca6, 0x7c87, 0x4ce4, 0x5cc5, 0x2c22, 0x3c03, 0x0c60, 0x1c41,
        0xedae, 0xfd8f, 0xcdec, 0xddcd, 0xad2a, 0xbd0b, 0x8d68, 0x9d49,
        0x7e97, 0x6eb6, 0x5ed5, 0x4ef4, 0x3e13, 0x2e32, 0x1e51, 0x0e70,
        0xff9f, 0xefbe, 0xdfdd, 0xcffc, 0xbf1b, 0xaf3a, 0x9f59, 0x8f78,
        0x9188, 0x81a9, 0xb1ca, 0xa1eb, 0xd10c, 0xc12d, 0xf14e, 0xe16f,
        0x1080, 0x00a1, 0x30c2, 0x20e3, 0x5004, 0x4025, 0x7046, 0x6067,
        0x83b9, 0x9398, 0xa3fb, 0xb3da, 0xc33d, 0xd31c, 0xe37f, 0xf35e,
        0x02b1, 0x1290, 0x22f3, 0x32d2, 0x4235, 0x5214, 0x6277, 0x7256,
        0xb5ea, 0xa5cb, 0x95a8, 0x8589, 0xf56e, 0xe54f, 0xd52c, 0xc50d,
        0x34e2, 0x24c3, 0x14a0, 0x0481, 0x7466, 0x6447, 0x5424, 0x4405,
        0xa7db, 0xb7fa, 0x8799, 0x97b8, 0xe75f, 0xf77e, 0xc71d, 0xd73c,
        0x26d3, 0x36f2, 0x0691, 0x16b0, 0x6657, 0x7676, 0x4615, 0x5634,
        0xd94c, 0xc96d, 0xf90e, 0xe92f, 0x99c8, 0x89e9, 0xb98a, 0xa9ab,
        0x5844, 0x4865, 0x7806, 0x6827, 0x18c0, 0x08e1, 0x3882, 0x28a3,
        0xcb7d, 0xdb5c, 0xeb3f, 0xfb1e, 0x8bf9, 0x9bd8, 0xabbb, 0xbb9a,
        0x4a75, 0x5a54, 0x6a37, 0x7a16, 0x0af1, 0x1ad0, 0x2ab3, 0x3a92,
        0xfd2e, 0xed0f, 0xdd6c, 0xcd4d, 0xbdaa, 0xad8b, 0x9de8, 0x8dc9,
        0x7c26, 0x6c07, 0x5c64, 0x4c45, 0x3ca2, 0x2c83, 0x1ce0, 0x0cc1,
        0xef1f, 0xff3e, 0xcf5d, 0xdf7c, 0xaf9b, 0xbfba, 0x8fd9, 0x9ff8,
        0x6e17, 0x7e36, 0x4e55, 0x5e74, 0x2e93, 0x3eb2, 0x0ed1, 0x1ef0,
    ];
    proof {
        assert(t@ =~= fcs_table_spec());
    }
    t
}

/// One CRC-16 step: table lookup on the high byte, shift, then XOR of
/// the data byte.
pub open spec fn fcs_step(crc: u16, b: u8) -> u16 {
    (fcs_table_spec()[(crc >> 8) as int] ^ (crc << 8)) ^ (b as u16)
}

/// CRC-16 over the first `n` bytes of the data.
pub open spec fn spec_fcs_partial(data: Seq<u8>, n: int) -> u16
    decreases n,
{
    if n <= 0 {
        0
    } else {
        fcs_step(spec_fcs_partial(data, n - 1), data[n - 1])
    }
}

/// The CRC-CCITT of a byte sequence: polynomial 0x1021, init 0x0000,
/// no reflection, no final XOR.
pub open spec fn spec_fcs_crc16(data: Seq<u8>) -> u16 {
    spec_fcs_partial(data, data.len() as int)
}

/// CRC-CCITT of the identifier-and-payload region of a frame.
pub fn fcs_crc16_compute(data: &Vec<u8>) -> (ret: u16)
    ensures
        ret == spec_fcs_crc16(data@),
{
    let table: Vec<u16> = fcs_table();
    let mut ret: u16 = 0;
    let mut i: usize = 0;
    let n: usize = data.len();
    while i < n
        invariant
            i <= n,
            n == data@.len(),
            table@ == fcs_table_spec(),
            ret == spec_fcs_partial(data@, i as int),
        decreases n - i,
    {
        assert(ret >> 8 < 256) by (bit_vector);
        ret = (table[(ret >> 8) as usize] ^ (ret << 8)) ^ (data[i] as u16);
        i = i + 1;
    }
    ret
}

/// How one byte of the framed region appears on the wire: flag and
/// escape bytes are prefixed with 0x7D and inverted in bit 4.
pub open spec fn escape_byte(b: u8) -> Seq<u8> {
    if b == 0x7D || b == 0x7E {
        seq![0x7Du8, b ^ 0x20]
    } else {
        seq![b]
    }
}

/// The framed region after escaping.
pub open spec fn spec_escape(s: Seq<u8>) -> Seq<u8>
    decreases s.len(),
{
    if s.len() == 0 {
        Seq::empty()
    } else {
        escape_byte(s[0]) + spec_escape(s.subrange(1, s.len() as int))
    }
}

/// The inverse of escaping; `None` on a raw flag byte, a trailing
/// 0x7D, or a 0x7D followed by anything but an escaped 0x7D/0x7E.
pub open spec fn spec_unescape(s: Seq<u8>) -> Option<Seq<u8>>
    decreases s.len(),
{
    if s.len() == 0 {
        Some(Seq::empty())
    } else if s[0] == 0x7E {
        None
    } else if s[0] == 0x7D {
        if s.len() >= 2 && (s[1] == 0x5D || s[1] == 0x5E) {
            match spec_unescape(s.subrange(2, s.len() as int)) {
                Some(u) => Some(seq![(s[1] ^ 0x20) as u8] + u),
                None => None,
            }
        } else {
            None
        }
    } else {
        match spec_unescape(s.subrange(1, s.len() as int)) {
            Some(u) => Some(seq![s[0]] + u),
            None => None,
        }
    }
}

/// Escaping distributes over concatenation.
pub proof fn lemma_escape_app(a: Seq<u8>, b: Seq<u8>)
    ensures
        spec_escape(a + b) == spec_escape(a) + spec_escape(b),
    decreases a.len(),
{
    if a.len() == 0 {
        assert(a + b =~= b);
        assert(spec_escape(a) + spec_escape(b) =~= spec_escape(b));
    } else {
        assert((a + b).subrange(1, (a + b).len() as int) =~= a.subrange(1, a.len() as int) + b);
        lemma_escape_app(a.subrange(1, a.len() as int), b);
        assert(spec_escape(a + b) =~= spec_escape(a) + spec_escape(b));
    }
}

/// A complete wire frame: flag, escaped identifier-payload-CRC region,
/// flag.
pub open spec fn spec_frame_bytes(m: Message) -> Seq<u8> {
    let region = spec_inner(m) + u16_le(spec_fcs_crc16(spec_inner(m)));
    seq![0x7Eu8] + spec_escape(region) + seq![0x7Eu8]
}

/// Zero-pads (or cuts) a name to a fixed wire width.
pub fn string_to_sized_vec(len: usize, s: &Vec<u8>) -> (r: Vec<u8>)
    ensures
        r@.len() == len,
        forall|i: int|
            0 <= i < len ==> r@[i] == (if i < s@.len() {
                s@[i]
            } else {
                0u8
            }),
{
    let mut r: Vec<u8> = Vec::new();
    let mut i: usize = 0;
    while i < len
        invariant
            i <= len,
            r@.len() == i,
            forall|j: int|
                0 <= j < i ==> r@[j] == (if j < s@.len() {
                    s@[j]
                } else {
                    0u8
                }),
        decreases len - i,
    {
        if i < s.len() {
            let b: u8 = s[i];
            r.push(b);
        } else {
            r.push(0);
        }
        i = i + 1;
    }
    r
}

/// Appends the bytes of `s` to `dst`.
fn append_bytes(dst: &mut Vec<u8>, s: &Vec<u8>)
    ensures
        final(dst)@ == old(dst)@ + s@,
{
    let mut i: usize = 0;
    while i < s.len()
        invariant
            i <= s@.len(),
            dst@ == old(dst)@ + s@.subrange(0, i as int),
        decreases s@.len() - i,
    {
        let b: u8 = s[i];
        dst.push(b);
        i = i + 1;
        proof {
            assert(old(dst)@ + s@.subrange(0, i - 1) + seq![s@[i - 1]] =~= old(dst)@
                + s@.subrange(0, i as int));
        }
    }
    proof {
        assert(s@.subrange(0, s@.len() as int) =~= s@);
    }
}

/// Appends the escaped form of `s` to `dst`.
fn append_escaped(dst: &mut Vec<u8>, s: &Vec<u8>)
    ensures
        final(dst)@ == old(dst)@ + spec_escape(s@),
{
    let mut i: usize = 0;
    while i < s.len()
        invariant
            i <= s@.len(),
            dst@ == old(dst)@ + spec_escape(s@.subrange(0, i as int)),
        decreases s@.len() - i,
    {
        let b: u8 = s[i];
        proof {
            assert(s@.subrange(0, i + 1) =~= s@.subrange(0, i as int) + seq![s@[i as int]]);
            lemma_escape_app(s@.subrange(0, i as int), seq![s@[i as int]]);
            let single = seq![s@[i as int]];
            assert(single.subrange(1, 1) =~= Seq::<u8>::empty());
            assert(single.len() == 1 && single[0] == s@[i as int]);
            assert(spec_escape(single) == escape_byte(s@[i as int]) + spec_escape(
                Seq::<u8>::empty(),
            ));
            assert(escape_byte(s@[i as int]) + Seq::<u8>::empty() =~= escape_byte(s@[i as int]));
        }
        if b == 0x7D || b == 0x7E {
            dst.push(0x7D);
            dst.push(b ^ 0x20);
            proof {
                assert(dst@ =~= old(dst)@ + spec_escape(s@.subrange(0, i + 1)));
            }
        } else {
            dst.push(b);
            proof {
                assert(dst@ =~= old(dst)@ + spec_escape(s@.subrange(0, i + 1)));
            }
        }
        i = i + 1;
    }
    proof {
        assert(s@.subrange(0, s@.len() as int) =~= s@);
    }
}

/// First status byte, assembled bit by bit.
fn build_status_b1(st: &HeartbeatStatus) -> (b: u8)
    ensures
        b == spec_status_b1(*st),
{
    let mut b: u8 = 0;
    if st.uat_initialized {
        b = b + 1;
    }
    if st.ratcs {
        b = b + 4;
    }
    if st.gps_batt_low {
        b = b + 8;
    }
    if st.addr_type {
        b = b + 16;
    }
    if st.ident {
        b = b + 32;
    }
    if st.maintainance_required {
        b = b + 64;
    }
    if st.gps_pos_valid {
        b = b + 128;
    }
    b
}

/// Second status byte, assembled bit by bit.
fn build_status_b2(st: &HeartbeatStatus) -> (b: u8)
    ensures
        b == spec_status_b2(*st),
{
    let mut b: u8 = 0;
    if st.utc_ok {
        b = b + 1;
    }
    if st.csa_not_available {
        b = b + 32;
    }
    if st.csa_not_requested {
        b = b + 64;
    }
    if st.timestamp_msb {
        b = b + 128;
    }
    b
}

/// Builds the heartbeat payload bytes.
fn build_heartbeat_payload(h: &Heartbeat) -> (r: Vec<u8>)
    ensures
        r@ == spec_heartbeat_payload(*h),
{
    let mut r: Vec<u8> = Vec::new();
    r.push(build_status_b1(&h.status));
    r.push(build_status_b2(&h.status));
    r.push((h.timestamp % 256) as u8);
    r.push((h.timestamp / 256) as u8);
    r.push((h.msg_counts % 256) as u8);
    r.push((h.msg_counts / 256) as u8);
    proof {
        assert(r@ =~= spec_heartbeat_payload(*h));
    }
    r
}

/// Builds the 27-byte traffic-report payload.
fn build_traffic_payload(t: &Traffic) -> (r: Vec<u8>)
    requires
        t.wf(),
    ensures
        r@ == spec_traffic_payload(*t),
{
    let mut r: Vec<u8> = Vec::new();
    r.push(tas_to_u8(&t.traffic_alert_status) * 16 + address_type_to_u8(&t.address_type));
    let a: u32 = t.participant_address;
    r.push((a / 65536) as u8);
    r.push(((a / 256) % 256) as u8);
    r.push((a % 256) as u8);
    let lat: u32 = if t.latitude >= 0 {
        t.latitude as u32
    } else {
        (t.latitude + 0x1000000) as u32
    };
    r.push((lat / 65536) as u8);
    r.push(((lat / 256) % 256) as u8);
    r.push((lat % 256) as u8);
    let lon: u32 = if t.longitude >= 0 {
        t.longitude as u32
    } else {
        (t.longitude + 0x1000000) as u32
    };
    r.push((lon / 65536) as u8);
    r.push(((lon / 256) % 256) as u8);
    r.push((lon % 256) as u8);
    r.push((t.altitude / 16) as u8);
    r.push(((t.altitude % 16) * 16) as u8 + t.misc);
    r.push(t.nic * 16 + t.nacp);
    r.push((t.horiz_velocity / 16) as u8);
    r.push(((t.horiz_velocity % 16) * 16) as u8 + (t.vert_velocity / 256) as u8);
    r.push((t.vert_velocity % 256) as u8);
    r.push(t.track);
    r.push(t.emitter_category);
    append_bytes(&mut r, &t.callsign);
    r.push(0);
    proof {
        assert(r@ =~= spec_traffic_payload(*t));
    }
    r
}

/// Builds the Foreflight identify payload.
fn build_foreflight_payload(f: &ForeflightIdentify) -> (r: Vec<u8>)
    requires
        f.wf(),
    ensures
        r@ == spec_foreflight_payload(*f),
{
    let mut r: Vec<u8> = Vec::new();
    r.push(0);
    r.push(f.version);
    let hi: u32 = (f.serial_number / 0x100000000) as u32;
    let lo: u32 = (f.serial_number % 0x100000000) as u32;
    r.push((hi / 0x1000000) as u8);
    r.push(((hi / 65536) % 256) as u8);
    r.push(((hi / 256) % 256) as u8);
    r.push((hi % 256) as u8);
    r.push((lo / 0x1000000) as u8);
    r.push(((lo / 65536) % 256) as u8);
    r.push(((lo / 256) % 256) as u8);
    r.push((lo % 256) as u8);
    append_bytes(&mut r, &f.device_name);
    append_bytes(&mut r, &f.device_name_long);
    let c: u32 = f.capabilities;
    r.push((c / 0x1000000) as u8);
    r.push(((c / 65536) % 256) as u8);
    r.push(((c / 256) % 256) as u8);
    r.push((c % 256) as u8);
    proof {
        assert(r@ =~= spec_foreflight_payload(*f));
    }
    r
}

/// The GDL-90 wire encoder.
pub struct Encoder {}

impl Encoder {
    pub fn new() -> Encoder {
        Encoder {  }
    }

    /// Appends the complete wire frame of `item` to `dst`: flag byte,
    /// escaped identifier, payload and little-endian CRC-16, flag byte.
    pub fn encode(&self, item: &Message, dst: &mut Vec<u8>)
        requires
            item.wf(),
        ensures
            final(dst)@ == old(dst)@ + spec_frame_bytes(*item),
    {
        let mut region: Vec<u8> = Vec::new();
        match item {
            Message::Heartbeat(msg) => {
                region.push(0);
                let payload: Vec<u8> = build_heartbeat_payload(msg);
                append_bytes(&mut region, &payload);
            },
            Message::OwnshipReport(msg) => {
                region.push(10);
                let payload: Vec<u8> = build_traffic_payload(msg);
                append_bytes(&mut region, &payload);
            },
            Message::OwnshipGeometricAltitude(_) => {
                region.push(11);
            },
            Message::TrafficReport(msg) => {
                region.push(20);
                let payload: Vec<u8> = build_traffic_payload(msg);
                append_bytes(&mut region, &payload);
            },
            Message::ForeflightIdentify(msg) => {
                region.push(0x65);
                let payload: Vec<u8> = build_foreflight_payload(msg);
                append_bytes(&mut region, &payload);
            },
        }
        proof {
            assert(region@ =~= spec_inner(*item));
        }
        let crc: u16 = fcs_crc16_compute(&region);
        region.push((crc % 256) as u8);
        region.push((crc / 256) as u8);
        proof {
            assert(region@ =~= spec_inner(*item) + u16_le(spec_fcs_crc16(spec_inner(*item))));
        }
        dst.push(0x7E);
        append_escaped(dst, &region);
        dst.push(0x7E);
        proof {
            assert(dst@ =~= old(dst)@ + spec_frame_bytes(*item));
        }
    }
}


/// XOR with 0x20 pairs each flag or escape byte with its escape code.
proof fn lemma_escape_codes(b: u8)
    by (bit_vector)
    ensures
        b == 0x7D ==> (b ^ 0x20) == 0x5D,
        b == 0x7E ==> (b ^ 0x20) == 0x5E,
        b == 0x5D ==> (b ^ 0x20) == 0x7D,
        b == 0x5E ==> (b ^ 0x20) == 0x7E,
        (b ^ 0x20) ^ 0x20 == b,
{
}

/// Unescaping inverts escaping.
pub proof fn lemma_unescape_escape(s: Seq<u8>)
    ensures
        spec_unescape(spec_escape(s)) == Some(s),
    decreases s.len(),
{
    if s.len() == 0 {
        assert(spec_escape(s) =~= Seq::<u8>::empty());
    } else {
        let rest = s.subrange(1, s.len() as int);
        lemma_unescape_escape(rest);
        let e = spec_escape(s);
        let eb = escape_byte(s[0]);
        if s[0] == 0x7D || s[0] == 0x7E {
            assert(e[0] == 0x7D);
            assert(e[1] == (s[0] ^ 0x20));
            lemma_escape_codes(s[0]);
            assert(e.subrange(2, e.len() as int) =~= spec_escape(rest));
            assert(seq![(e[1] ^ 0x20) as u8] + rest =~= s);
        } else {
            assert(e[0] == s[0]);
            assert(e.subrange(1, e.len() as int) =~= spec_escape(rest));
            assert(seq![e[0]] + rest =~= s);
        }
    }
}

/// A successful unescape comes from exactly one wire form: escaping its
/// result gives back the input.
pub proof fn lemma_escape_unescape(y: Seq<u8>)
    requires
        spec_unescape(y) is Some,
    ensures
        spec_escape(spec_unescape(y).unwrap()) == y,
    decreases y.len(),
{
    if y.len() == 0 {
        assert(spec_escape(spec_unescape(y).unwrap()) =~= y);
    } else if y[0] == 0x7D {
        let rest = y.subrange(2, y.len() as int);
        lemma_escape_unescape(rest);
        let u = spec_unescape(rest).unwrap();
        let x = spec_unescape(y).unwrap();
        assert(x == seq![(y[1] ^ 0x20) as u8] + u);
        lemma_escape_codes(y[1]);
        assert(x[0] == (y[1] ^ 0x20));
        assert(x.subrange(1, x.len() as int) =~= u);
        assert(spec_escape(x) =~= y);
    } else {
        let rest = y.subrange(1, y.len() as int);
        lemma_escape_unescape(rest);
        let u = spec_unescape(rest).unwrap();
        let x = spec_unescape(y).unwrap();
        assert(x == seq![y[0]] + u);
        assert(x[0] == y[0]);
        assert(x.subrange(1, x.len() as int) =~= u);
        assert(spec_escape(x) =~= y);
    }
}

/// Shape of an escaped region: no flag byte at all, and every 0x7D is
/// followed by the escape code of a flag or escape byte.
pub proof fn lemma_escape_shape(s: Seq<u8>)
    ensures
        forall|i: int| 0 <= i < spec_escape(s).len() ==> #[trigger] spec_escape(s)[i] != 0x7E,
        forall|i: int|
            0 <= i < spec_escape(s).len() && #[trigger] spec_escape(s)[i] == 0x7D ==> i + 1
                < spec_escape(s).len() && (spec_escape(s)[i + 1] == 0x5D || spec_escape(s)[i + 1]
                == 0x5E),
    decreases s.len(),
{
    if s.len() > 0 {
        let rest = s.subrange(1, s.len() as int);
        lemma_escape_shape(rest);
        let e = spec_escape(s);
        let eb = escape_byte(s[0]);
        let er = spec_escape(rest);
        if s[0] == 0x7D || s[0] == 0x7E {
            lemma_escape_codes(s[0]);
            assert(eb.len() == 2 && eb[0] == 0x7D && (eb[1] == 0x5D || eb[1] == 0x5E));
        }
        assert forall|i: int| 0 <= i < e.len() implies #[trigger] e[i] != 0x7E by {
            if i < eb.len() {
                assert(e[i] == eb[i]);
            } else {
                assert(e[i] == er[i - eb.len()]);
            }
        }
        assert forall|i: int| 0 <= i < e.len() && #[trigger] e[i] == 0x7D implies i + 1 < e.len()
            && (e[i + 1] == 0x5D || e[i + 1] == 0x5E) by {
            if i < eb.len() {
                if eb.len() == 2 {
                    if i == 0 {
                        assert(e[1] == eb[1]);
                    } else {
                        assert(e[i] == eb[1]);
                        assert(e[i] != 0x7D);
                    }
                } else {
                    assert(e[0] == s[0] && s[0] != 0x7D);
                }
            } else {
                assert(e[i] == er[i - eb.len()]);
                assert(er[i - eb.len() + 1] == 0x5D || er[i - eb.len() + 1] == 0x5E);
                assert(e[i + 1] == er[i - eb.len() + 1]);
            }
        }
    }
}

/// The wire shape of every emitted frame: flag bytes at both ends, no
/// raw flag byte and no dangling escape between them, and an interior
/// that unescapes to the identifier, the payload, and the little-endian
/// CRC-16 over identifier and payload.
pub proof fn lemma_frame_wire_format(m: Message)
    requires
        m.wf(),
    ensures
        ({
            let f = spec_frame_bytes(m);
            let region = spec_inner(m) + u16_le(spec_fcs_crc16(spec_inner(m)));
            &&& f.len() >= 2
            &&& f[0] == 0x7E
            &&& f[f.len() - 1] == 0x7E
            &&& forall|i: int| 0 < i < f.len() - 1 ==> #[trigger] f[i] != 0x7E
            &&& forall|i: int|
                0 < i < f.len() - 1 && #[trigger] f[i] == 0x7D ==> i + 1 < f.len() - 1 && (f[i + 1]
                    == 0x5D || f[i + 1] == 0x5E)
            &&& spec_unescape(f.subrange(1, f.len() - 1)) == Some(region)
        }),
{
    let region = spec_inner(m) + u16_le(spec_fcs_crc16(spec_inner(m)));
    let e = spec_escape(region);
    let f = spec_frame_bytes(m);
    lemma_escape_shape(region);
    lemma_unescape_escape(region);
    assert(f.len() == e.len() + 2);
    assert(f.subrange(1, f.len() - 1) =~= e);
    assert forall|i: int| 0 < i < f.len() - 1 implies #[trigger] f[i] != 0x7E by {
        assert(f[i] == e[i - 1]);
    }
    assert forall|i: int|
        0 < i < f.len() - 1 && #[trigger] f[i] == 0x7D implies i + 1 < f.len() - 1 && (f[i + 1]
            == 0x5D || f[i + 1] == 0x5E) by {
        assert(f[i] == e[i - 1]);
        assert(e[i] == 0x5D || e[i] == 0x5E);
        assert(f[i + 1] == e[i]);
    }
}


/// Byte-level decomposition of the first status byte.
proof fn lemma_status_b1_bits(b: u8, a0: u8, a2: u8, a3: u8, a4: u8, a5: u8, a6: u8, a7: u8)
    by (bit_vector)
    requires
        a0 <= 1,
        a2 <= 1,
        a3 <= 1,
        a4 <= 1,
        a5 <= 1,
        a6 <= 1,
        a7 <= 1,
        b == a0 + 4 * a2 + 8 * a3 + 16 * a4 + 32 * a5 + 64 * a6 + 128 * a7,
    ensures
        b % 2 == a0,
        (b / 2) % 2 == 0,
        (b / 4) % 2 == a2,
        (b / 8) % 2 == a3,
        (b / 16) % 2 == a4,
        (b / 32) % 2 == a5,
        (b / 64) % 2 == a6,
        b / 128 == a7,
{
}

/// Byte-level decomposition of the second status byte.
proof fn lemma_status_b2_bits(b: u8, u0: u8, c5: u8, c6: u8, c7: u8)
    by (bit_vector)
    requires
        u0 <= 1,
        c5 <= 1,
        c6 <= 1,
        c7 <= 1,
        b == u0 + 32 * c5 + 64 * c6 + 128 * c7,
    ensures
        b % 2 == u0,
        (b / 2) % 16 == 0,
        (b / 32) % 2 == c5,
        (b / 64) % 2 == c6,
        b / 128 == c7,
{
}

/// A byte packed from two nibbles splits back into them.
proof fn lemma_u8_nibbles(x: u8, y: u8)
    by (bit_vector)
    requires
        x < 16,
        y < 16,
    ensures
        (x * 16 + y) / 16 == x,
        (x * 16 + y) % 16 == y,
{
}

/// A 12-bit value splits into its high byte and low nibble.
proof fn lemma_u16_split16(x: u16)
    by (bit_vector)
    requires
        x < 4096,
    ensures
        x / 16 < 256,
        (x / 16) * 16 + (x % 16) == x,
        x % 16 < 16,
{
}

/// A 12-bit value splits into its high nibble and low byte.
proof fn lemma_u16_split256(x: u16)
    by (bit_vector)
    requires
        x < 4096,
    ensures
        x / 256 < 16,
        (x / 256) * 256 + (x % 256) == x,
{
}

/// A 24-bit value is the weighted sum of its big-endian digits.
proof fn lemma_u24_digits(a: u32)
    by (bit_vector)
    requires
        a < 0x1000000,
    ensures
        a / 65536 < 256,
        (a / 65536) * 65536 + ((a / 256) % 256) * 256 + (a % 256) == a,
{
}

/// A 32-bit value is the weighted sum of its big-endian digits.
proof fn lemma_u32_digits(a: u32)
    by (bit_vector)
    ensures
        (a / 0x1000000) * 0x1000000 + ((a / 65536) % 256) * 65536 + ((a / 256) % 256) * 256 + (a
            % 256) == a,
{
}

/// Every field of a heartbeat can be read back from its payload bytes,
/// and the reserved bits are clear.
pub proof fn lemma_heartbeat_payload_recovery(h: Heartbeat)
    ensures
        ({
            let p = spec_heartbeat_payload(h);
            &&& p.len() == 6
            &&& (p[0] % 2 == 1) == h.status.uat_initialized
            &&& (p[0] / 2) % 2 == 0
            &&& ((p[0] / 4) % 2 == 1) == h.status.ratcs
            &&& ((p[0] / 8) % 2 == 1) == h.status.gps_batt_low
            &&& ((p[0] / 16) % 2 == 1) == h.status.addr_type
            &&& ((p[0] / 32) % 2 == 1) == h.status.ident
            &&& ((p[0] / 64) % 2 == 1) == h.status.maintainance_required
            &&& (p[0] / 128 == 1) == h.status.gps_pos_valid
            &&& (p[1] % 2 == 1) == h.status.utc_ok
            &&& (p[1] / 2) % 16 == 0
            &&& ((p[1] / 32) % 2 == 1) == h.status.csa_not_available
            &&& ((p[1] / 64) % 2 == 1) == h.status.csa_not_requested
            &&& (p[1] / 128 == 1) == h.status.timestamp_msb
            &&& p[2] + p[3] * 256 == h.timestamp
            &&& p[4] + p[5] * 256 == h.msg_counts
        }),
{
    let p = spec_heartbeat_payload(h);
    let st = h.status;
    let a0: u8 = flag_bit(st.uat_initialized, 1);
    let a2: u8 = if st.ratcs { 1u8 } else { 0u8 };
    let a3: u8 = if st.gps_batt_low { 1u8 } else { 0u8 };
    let a4: u8 = if st.addr_type { 1u8 } else { 0u8 };
    let a5: u8 = if st.ident { 1u8 } else { 0u8 };
    let a6: u8 = if st.maintainance_required { 1u8 } else { 0u8 };
    let a7: u8 = if st.gps_pos_valid { 1u8 } else { 0u8 };
    assert(p[0] == spec_status_b1(st));
    assert(spec_status_b1(st) == a0 + 4 * a2 + 8 * a3 + 16 * a4 + 32 * a5 + 64 * a6 + 128 * a7);
    lemma_status_b1_bits(spec_status_b1(st), a0, a2, a3, a4, a5, a6, a7);
    let u0: u8 = if st.utc_ok { 1u8 } else { 0u8 };
    let c5: u8 = if st.csa_not_available { 1u8 } else { 0u8 };
    let c6: u8 = if st.csa_not_requested { 1u8 } else { 0u8 };
    let c7: u8 = if st.timestamp_msb { 1u8 } else { 0u8 };
    assert(p[1] == spec_status_b2(st));
    assert(spec_status_b2(st) == u0 + 32 * c5 + 64 * c6 + 128 * c7);
    lemma_status_b2_bits(spec_status_b2(st), u0, c5, c6, c7);
    assert(p[2] == h.timestamp % 256 && p[3] == h.timestamp / 256);
    assert(p[4] == h.msg_counts % 256 && p[5] == h.msg_counts / 256);
}

/// Every field of a traffic report can be read back from its payload
/// bytes, and the spare byte is zero.
pub proof fn lemma_traffic_payload_recovery(t: Traffic)
    requires
        t.wf(),
    ensures
        ({
            let p = spec_traffic_payload(t);
            &&& p.len() == 27
            &&& p[0] / 16 == spec_tas(t.traffic_alert_status)
            &&& p[0] % 16 == spec_address_type(t.address_type)
            &&& p[1] * 65536 + p[2] * 256 + p[3] == t.participant_address
            &&& p[4] * 65536 + p[5] * 256 + p[6] == sem24(t.latitude)
            &&& p[7] * 65536 + p[8] * 256 + p[9] == sem24(t.longitude)
            &&& p[10] * 16 + p[11] / 16 == t.altitude
            &&& p[11] % 16 == t.misc
            &&& p[12] / 16 == t.nic
            &&& p[12] % 16 == t.nacp
            &&& p[13] * 16 + p[14] / 16 == t.horiz_velocity
            &&& (p[14] % 16) * 256 + p[15] == t.vert_velocity
            &&& p[16] == t.track
            &&& p[17] == t.emitter_category
            &&& p.subrange(18, 26) == t.callsign@
            &&& p[26] == 0
        }),
{
    let p = spec_traffic_payload(t);
    lemma_u8_nibbles(spec_tas(t.traffic_alert_status), spec_address_type(t.address_type));
    lemma_u24_digits(t.participant_address);
    lemma_u24_digits(sem24(t.latitude));
    lemma_u24_digits(sem24(t.longitude));
    lemma_u16_split16(t.altitude);
    lemma_u8_nibbles((t.altitude % 16) as u8, t.misc);
    lemma_u8_nibbles(t.nic, t.nacp);
    lemma_u16_split16(t.horiz_velocity);
    lemma_u16_split256(t.vert_velocity);
    lemma_u8_nibbles((t.horiz_velocity % 16) as u8, (t.vert_velocity / 256) as u8);
    assert(p.subrange(18, 26) =~= t.callsign@);
}

/// Every field of a Foreflight identify message can be read back from
/// its payload bytes.
pub proof fn lemma_foreflight_payload_recovery(f: ForeflightIdentify)
    requires
        f.wf(),
    ensures
        ({
            let p = spec_foreflight_payload(f);
            &&& p.len() == 38
            &&& p[0] == 0
            &&& p[1] == f.version
            &&& (p[2] * 0x1000000 + p[3] * 65536 + p[4] * 256 + p[5]) * 0x100000000 + (p[6]
                * 0x1000000 + p[7] * 65536 + p[8] * 256 + p[9]) == f.serial_number
            &&& p.subrange(10, 18) == f.device_name@
            &&& p.subrange(18, 34) == f.device_name_long@
            &&& p[34] * 0x1000000 + p[35] * 65536 + p[36] * 256 + p[37] == f.capabilities
        }),
{
    let p = spec_foreflight_payload(f);
    let hi: u32 = (f.serial_number / 0x100000000) as u32;
    let lo: u32 = (f.serial_number % 0x100000000) as u32;
    lemma_u32_digits(hi);
    lemma_u32_digits(lo);
    lemma_u32_digits(f.capabilities);
    assert(p.subrange(10, 18) =~= f.device_name@);
    assert(p.subrange(18, 34) =~= f.device_name_long@);
}

/// Byte-for-byte comparison of two vectors.
fn vec_eq(a: &Vec<u8>, b: &Vec<u8>) -> (r: bool)
    ensures
        r == (a@ =~= b@),
{
    if a.len() != b.len() {
        return false;
    }
    let n: usize = a.len();
    let mut i: usize = 0;
    while i < n
        invariant
            i <= n,
            n == a@.len() == b@.len(),
            forall|j: int| 0 <= j < i ==> a@[j] == b@[j],
        decreases n - i,
    {
        if a[i] != b[i] {
            return false;
        }
        i = i + 1;
    }
    true
}


/// Copies `p[from..to]` into a fresh vector.
fn copy_range(p: &Vec<u8>, from: usize, to: usize) -> (r: Vec<u8>)
    requires
        from <= to <= p@.len(),
    ensures
        r@ == p@.subrange(from as int, to as int),
{
    let mut r: Vec<u8> = Vec::new();
    let mut i: usize = from;
    while i < to
        invariant
            from <= i <= to <= p@.len(),
            r@ == p@.subrange(from as int, i as int),
        decreases to - i,
    {
        let b: u8 = p[i];
        r.push(b);
        i = i + 1;
        proof {
            assert(p@.subrange(from as int, i - 1) + seq![p@[i - 1]] =~= p@.subrange(
                from as int,
                i as int,
            ));
        }
    }
    r
}

/// Parses a heartbeat payload; strict about the reserved bits, so that
/// every accepted payload is the canonical encoding of its result.
fn parse_heartbeat(p: &Vec<u8>) -> (r: Option<Heartbeat>)
    ensures
        match r {
            Some(h) => p@ == spec_heartbeat_payload(h),
            None => forall|h: Heartbeat| p@ != spec_heartbeat_payload(h),
        },
{
    if p.len() != 6 {
        proof {
            assert forall|h: Heartbeat| p@ != spec_heartbeat_payload(h) by {
                lemma_heartbeat_payload_recovery(h);
            }
        }
        return None;
    }
    let b1: u8 = p[0];
    let b2: u8 = p[1];
    if (b1 / 2) % 2 != 0 || (b2 / 2) % 16 != 0 {
        proof {
            assert forall|h: Heartbeat| p@ != spec_heartbeat_payload(h) by {
                lemma_heartbeat_payload_recovery(h);
            }
        }
        return None;
    }
    let status = HeartbeatStatus {
        uat_initialized: b1 % 2 == 1,
        ratcs: (b1 / 4) % 2 == 1,
        gps_batt_low: (b1 / 8) % 2 == 1,
        addr_type: (b1 / 16) % 2 == 1,
        ident: (b1 / 32) % 2 == 1,
        maintainance_required: (b1 / 64) % 2 == 1,
        gps_pos_valid: b1 / 128 == 1,
        utc_ok: b2 % 2 == 1,
        csa_not_available: (b2 / 32) % 2 == 1,
        csa_not_requested: (b2 / 64) % 2 == 1,
        timestamp_msb: b2 / 128 == 1,
    };
    let timestamp: u16 = p[2] as u16 + p[3] as u16 * 256;
    let msg_counts: u16 = p[4] as u16 + p[5] as u16 * 256;
    let h = Heartbeat { status, timestamp, msg_counts };
    let rebuilt: Vec<u8> = build_heartbeat_payload(&h);
    if vec_eq(&rebuilt, p) {
        Some(h)
    } else {
        proof {
            assert forall|h2: Heartbeat| p@ != spec_heartbeat_payload(h2) by {
                if p@ == spec_heartbeat_payload(h2) {
                    lemma_heartbeat_payload_recovery(h2);
                    assert(spec_heartbeat_payload(h) =~= spec_heartbeat_payload(h2));
                    assert(false);
                }
            }
        }
        None
    }
}

/// Parses a traffic-report payload; strict about the nibble ranges and
/// the spare byte.
fn parse_traffic(p: &Vec<u8>) -> (r: Option<Traffic>)
    ensures
        match r {
            Some(t) => t.wf() && p@ == spec_traffic_payload(t),
            None => forall|t: Traffic| t.wf() ==> p@ != spec_traffic_payload(t),
        },
{
    if p.len() != 27 {
        proof {
            assert forall|t: Traffic| t.wf() implies p@ != spec_traffic_payload(t) by {
                lemma_traffic_payload_recovery(t);
            }
        }
        return None;
    }
    let b0: u8 = p[0];
    if b0 / 16 > 1 || b0 % 16 > 5 || p[26] != 0 {
        proof {
            assert forall|t: Traffic| t.wf() implies p@ != spec_traffic_payload(t) by {
                if p@ == spec_traffic_payload(t) {
                    lemma_traffic_payload_recovery(t);
                    assert(false);
                }
            }
        }
        return None;
    }
    let tas = if b0 / 16 == 0 {
        TrafficAlertStatus::NoAlert
    } else {
        TrafficAlertStatus::Alert
    };
    let low: u8 = b0 % 16;
    let at = if low == 0 {
        TrafficAddressType::ADSBWithIcao
    } else if low == 1 {
        TrafficAddressType::ADSBWithSelfAssigned
    } else if low == 2 {
        TrafficAddressType::TISBWithIcao
    } else if low == 3 {
        TrafficAddressType::TISBWithTrackFile
    } else if low == 4 {
        TrafficAddressType::SurfaceVehicle
    } else {
        TrafficAddressType::GroundStationBeacon
    };
    let addr: u32 = p[1] as u32 * 65536 + p[2] as u32 * 256 + p[3] as u32;
    let ulat: u32 = p[4] as u32 * 65536 + p[5] as u32 * 256 + p[6] as u32;
    let lat: i32 = if ulat >= 0x800000 {
        ulat as i32 - 0x1000000
    } else {
        ulat as i32
    };
    let ulon: u32 = p[7] as u32 * 65536 + p[8] as u32 * 256 + p[9] as u32;
    let lon: i32 = if ulon >= 0x800000 {
        ulon as i32 - 0x1000000
    } else {
        ulon as i32
    };
    let altitude: u16 = p[10] as u16 * 16 + (p[11] / 16) as u16;
    let misc: u8 = p[11] % 16;
    let nic: u8 = p[12] / 16;
    let nacp: u8 = p[12] % 16;
    let hv: u16 = p[13] as u16 * 16 + (p[14] / 16) as u16;
    let vv: u16 = (p[14] % 16) as u16 * 256 + p[15] as u16;
    let callsign: Vec<u8> = copy_range(p, 18, 26);
    let t = Traffic {
        traffic_alert_status: tas,
        address_type: at,
        participant_address: addr,
        latitude: lat,
        longitude: lon,
        altitude,
        misc,
        nic,
        nacp,
        horiz_velocity: hv,
        vert_velocity: vv,
        track: p[16],
        emitter_category: p[17],
        callsign,
    };
    let rebuilt: Vec<u8> = build_traffic_payload(&t);
    if vec_eq(&rebuilt, p) {
        Some(t)
    } else {
        proof {
            assert forall|t2: Traffic| t2.wf() implies p@ != spec_traffic_payload(t2) by {
                if p@ == spec_traffic_payload(t2) {
                    lemma_traffic_payload_recovery(t2);
                    lemma_tas_injective(t.traffic_alert_status, t2.traffic_alert_status);
                    lemma_address_type_injective(t.address_type, t2.address_type);
                    assert(sem24(t.latitude) == sem24(t2.latitude));
                    assert(t.latitude == t2.latitude);
                    assert(t.longitude == t2.longitude);
                    assert(t.callsign@ == t2.callsign@);
                    assert(spec_traffic_payload(t) =~= spec_traffic_payload(t2));
                    assert(false);
                }
            }
        }
        None
    }
}

/// The alert-status nibble determines the alert status.
proof fn lemma_tas_injective(x: TrafficAlertStatus, y: TrafficAlertStatus)
    requires
        spec_tas(x) == spec_tas(y),
    ensures
        x == y,
{
    match (x, y) {
        (TrafficAlertStatus::NoAlert, TrafficAlertStatus::NoAlert) => {},
        (TrafficAlertStatus::Alert, TrafficAlertStatus::Alert) => {},
        _ => {},
    }
}

/// The address-type nibble determines the address type.
proof fn lemma_address_type_injective(x: TrafficAddressType, y: TrafficAddressType)
    requires
        spec_address_type(x) == spec_address_type(y),
    ensures
        x == y,
{
    match (x, y) {
        (TrafficAddressType::ADSBWithIcao, TrafficAddressType::ADSBWithIcao) => {},
        (TrafficAddressType::ADSBWithSelfAssigned, TrafficAddressType::ADSBWithSelfAssigned) => {},
        (TrafficAddressType::TISBWithIcao, TrafficAddressType::TISBWithIcao) => {},
        (TrafficAddressType::TISBWithTrackFile, TrafficAddressType::TISBWithTrackFile) => {},
        (TrafficAddressType::SurfaceVehicle, TrafficAddressType::SurfaceVehicle) => {},
        (TrafficAddressType::GroundStationBeacon, TrafficAddressType::GroundStationBeacon) => {},
        _ => {},
    }
}

/// Parses a Foreflight identify payload.
fn parse_foreflight(p: &Vec<u8>) -> (r: Option<ForeflightIdentify>)
    ensures
        match r {
            Some(f) => f.wf() && p@ == spec_foreflight_payload(f),
            None => forall|f: ForeflightIdentify| f.wf() ==> p@ != spec_foreflight_payload(f),
        },
{
    if p.len() != 38 || p[0] != 0 {
        proof {
            assert forall|f: ForeflightIdentify| f.wf() implies p@ != spec_foreflight_payload(
                f,
            ) by {
                if p@ == spec_foreflight_payload(f) {
                    lemma_foreflight_payload_recovery(f);
                    assert(false);
                }
            }
        }
        return None;
    }
    let hi: u32 = p[2] as u32 * 0x1000000 + p[3] as u32 * 65536 + p[4] as u32 * 256 + p[5] as u32;
    let lo: u32 = p[6] as u32 * 0x1000000 + p[7] as u32 * 65536 + p[8] as u32 * 256 + p[9] as u32;
    let serial: u64 = hi as u64 * 0x100000000 + lo as u64;
    let device_name: Vec<u8> = copy_range(p, 10, 18);
    let device_name_long: Vec<u8> = copy_range(p, 18, 34);
    let capabilities: u32 = p[34] as u32 * 0x1000000 + p[35] as u32 * 65536 + p[36] as u32 * 256
        + p[37] as u32;
    let f = ForeflightIdentify {
        version: p[1],
        serial_number: serial,
        device_name,
        device_name_long,
        capabilities,
    };
    let rebuilt: Vec<u8> = build_foreflight_payload(&f);
    if vec_eq(&rebuilt, p) {
        Some(f)
    } else {
        proof {
            assert forall|f2: ForeflightIdentify| f2.wf() implies p@ != spec_foreflight_payload(
                f2,
            ) by {
                if p@ == spec_foreflight_payload(f2) {
                    lemma_foreflight_payload_recovery(f2);
                    assert(f.serial_number == f2.serial_number);
                    assert(f.device_name@ == f2.device_name@);
                    assert(f.device_name_long@ == f2.device_name_long@);
                    assert(spec_foreflight_payload(f) =~= spec_foreflight_payload(f2));
                    assert(false);
                }
            }
        }
        None
    }
}

/// Prefixing an already-unescaped run onto the pending rest of a scan.
pub open spec fn unescape_cont(prefix: Seq<u8>, rest: Seq<u8>) -> Option<Seq<u8>> {
    match spec_unescape(rest) {
        Some(u) => Some(prefix + u),
        None => None,
    }
}

/// Unescapes a framed region; `None` exactly when `spec_unescape`
/// rejects it.
fn unescape_bytes(s: &Vec<u8>) -> (r: Option<Vec<u8>>)
    ensures
        match r {
            Some(u) => spec_unescape(s@) == Some(u@),
            None => spec_unescape(s@) is None,
        },
{
    let n: usize = s.len();
    let mut out: Vec<u8> = Vec::new();
    let mut i: usize = 0;
    proof {
        assert(s@.subrange(0, n as int) =~= s@);
        if spec_unescape(s@) is Some {
            assert(Seq::<u8>::empty() + spec_unescape(s@).unwrap() =~= spec_unescape(s@).unwrap());
        }
    }
    while i < n
        invariant
            i <= n,
            n == s@.len(),
            spec_unescape(s@) == unescape_cont(out@, s@.subrange(i as int, n as int)),
        decreases n - i,
    {
        let ghost pending = s@.subrange(i as int, n as int);
        let b: u8 = s[i];
        proof {
            assert(pending[0] == b);
        }
        if b == 0x7E {
            return None;
        } else if b == 0x7D {
            if i + 1 < n && (s[i + 1] == 0x5D || s[i + 1] == 0x5E) {
                let ghost out0 = out@;
                let c: u8 = s[i + 1] ^ 0x20;
                out.push(c);
                proof {
                    assert(pending.len() >= 2 && pending[1] == s@[i + 1]);
                    assert(pending.subrange(2, pending.len() as int) =~= s@.subrange(
                        i + 2,
                        n as int,
                    ));
                    if spec_unescape(s@.subrange(i + 2, n as int)) is Some {
                        let u = spec_unescape(s@.subrange(i + 2, n as int)).unwrap();
                        assert(out@ + u =~= out0 + (seq![(pending[1] ^ 0x20) as u8] + u));
                    }
                }
                i = i + 2;
            } else {
                proof {
                    if i + 1 < n {
                        assert(pending.len() >= 2 && pending[1] == s@[i + 1]);
                    } else {
                        assert(pending.len() == 1);
                    }
                }
                return None;
            }
        } else {
            let ghost out0 = out@;
            out.push(b);
            proof {
                assert(pending.subrange(1, pending.len() as int) =~= s@.subrange(i + 1, n as int));
                if spec_unescape(s@.subrange(i + 1, n as int)) is Some {
                    let u = spec_unescape(s@.subrange(i + 1, n as int)).unwrap();
                    assert(out@ + u =~= out0 + (seq![pending[0]] + u));
                }
            }
            i = i + 1;
        }
    }
    proof {
        assert(s@.subrange(n as int, n as int) =~= Seq::<u8>::empty());
        assert(out@ + Seq::<u8>::empty() =~= out@);
    }
    Some(out)
}


/// Relates a frame to its unescaped parts: the region, the inner
/// identifier-and-payload run, and the trailing CRC bytes.
proof fn lemma_decode_frame_parts(m: Message, fr: Seq<u8>, interior: Seq<u8>, region: Seq<u8>)
    requires
        m.wf(),
        fr == spec_frame_bytes(m),
        fr.len() >= 2,
        interior == fr.subrange(1, fr.len() - 1),
        spec_unescape(interior) == Some(region),
    ensures
        region == spec_inner(m) + u16_le(spec_fcs_crc16(spec_inner(m))),
        region.len() == spec_inner(m).len() + 2,
        region.len() >= 3,
        region.subrange(0, region.len() - 2) == spec_inner(m),
        region[0] == spec_message_id(m),
        region.subrange(1, region.len() - 2) == spec_payload(m),
        region[region.len() - 2] == spec_fcs_crc16(spec_inner(m)) % 256,
        region[region.len() - 1] == spec_fcs_crc16(spec_inner(m)) / 256,
{
    let inner = spec_inner(m);
    let mregion = inner + u16_le(spec_fcs_crc16(inner));
    lemma_unescape_escape(mregion);
    assert(interior =~= spec_escape(mregion));
    assert(region == mregion);
    assert(region.subrange(0, region.len() - 2) =~= inner);
    assert(region.subrange(1, region.len() - 2) =~= spec_payload(m));
}

/// Decodes one complete GDL-90 wire frame.  Succeeds exactly on the
/// canonical encoding of a well-formed message: on success the input is
/// byte-for-byte the wire frame of the returned message, and on failure
/// no well-formed message encodes to the input.
pub fn decode(frame: &Vec<u8>) -> (r: Option<Message>)
    ensures
        match r {
            Some(m) => m.wf() && frame@ == spec_frame_bytes(m),
            None => forall|m: Message| m.wf() ==> frame@ != spec_frame_bytes(m),
        },
{
    let n: usize = frame.len();
    if n < 2 || frame[0] != 0x7E || frame[n - 1] != 0x7E {
        proof {
            assert forall|m: Message| m.wf() implies frame@ != spec_frame_bytes(m) by {
                if frame@ == spec_frame_bytes(m) {
                    lemma_frame_wire_format(m);
                    assert(false);
                }
            }
        }
        return None;
    }
    let interior: Vec<u8> = copy_range(frame, 1, n - 1);
    let region: Vec<u8> = match unescape_bytes(&interior) {
        Some(u) => u,
        None => {
            proof {
                assert forall|m: Message| m.wf() implies frame@ != spec_frame_bytes(m) by {
                    if frame@ == spec_frame_bytes(m) {
                        lemma_frame_wire_format(m);
                        assert(false);
                    }
                }
            }
            return None;
        },
    };
    let rn: usize = region.len();
    if rn < 3 {
        proof {
            assert forall|m: Message| m.wf() implies frame@ != spec_frame_bytes(m) by {
                if frame@ == spec_frame_bytes(m) {
                    lemma_decode_frame_parts(m, frame@, interior@, region@);
                    assert(false);
                }
            }
        }
        return None;
    }
    let inner: Vec<u8> = copy_range(&region, 0, rn - 2);
    let crc: u16 = fcs_crc16_compute(&inner);
    if !(region[rn - 2] == (crc % 256) as u8 && region[rn - 1] == (crc / 256) as u8) {
        proof {
            assert forall|m: Message| m.wf() implies frame@ != spec_frame_bytes(m) by {
                if frame@ == spec_frame_bytes(m) {
                    lemma_decode_frame_parts(m, frame@, interior@, region@);
                    assert(inner@ =~= spec_inner(m));
                    assert(false);
                }
            }
        }
        return None;
    }
    let id: u8 = inner[0];
    let payload: Vec<u8> = copy_range(&inner, 1, rn - 2);
    proof {
        assert(payload@ =~= region@.subrange(1, rn - 2));
    }
    if id == 0 {
        match parse_heartbeat(&payload) {
            Some(h) => {
                let m = Message::Heartbeat(h);
                proof {
                    lemma_decode_matches(m, frame@, interior@, region@, payload@, crc);
                }
                Some(m)
            },
            None => {
                proof {
                    assert forall|m: Message| m.wf() implies frame@ != spec_frame_bytes(m) by {
                        if frame@ == spec_frame_bytes(m) {
                            lemma_decode_frame_parts(m, frame@, interior@, region@);
                            assert(inner@ =~= spec_inner(m));
                            assert(payload@ =~= spec_payload(m));
                            match m {
                                Message::Heartbeat(h) => {
                                    assert(payload@ == spec_heartbeat_payload(h));
                                },
                                _ => {},
                            }
                            assert(false);
                        }
                    }
                }
                None
            },
        }
    } else if id == 10 || id == 20 {
        match parse_traffic(&payload) {
            Some(t) => {
                let m = if id == 10 {
                    Message::OwnshipReport(t)
                } else {
                    Message::TrafficReport(t)
                };
                proof {
                    lemma_decode_matches(m, frame@, interior@, region@, payload@, crc);
                }
                Some(m)
            },
            None => {
                proof {
                    assert forall|m: Message| m.wf() implies frame@ != spec_frame_bytes(m) by {
                        if frame@ == spec_frame_bytes(m) {
                            lemma_decode_frame_parts(m, frame@, interior@, region@);
                            assert(inner@ =~= spec_inner(m));
                            assert(payload@ =~= spec_payload(m));
                            match m {
                                Message::OwnshipReport(t) => {
                                    assert(payload@ == spec_traffic_payload(t));
                                },
                                Message::TrafficReport(t) => {
                                    assert(payload@ == spec_traffic_payload(t));
                                },
                                _ => {},
                            }
                            assert(false);
                        }
                    }
                }
                None
            },
        }
    } else if id == 11 {
        if payload.len() == 0 {
            let m = Message::OwnshipGeometricAltitude(OwnshipGeometricAltitude {  });
            proof {
                assert(payload@ =~= Seq::<u8>::empty());
                lemma_decode_matches(m, frame@, interior@, region@, payload@, crc);
            }
            Some(m)
        } else {
            proof {
                assert forall|m: Message| m.wf() implies frame@ != spec_frame_bytes(m) by {
                    if frame@ == spec_frame_bytes(m) {
                        lemma_decode_frame_parts(m, frame@, interior@, region@);
                        assert(inner@ =~= spec_inner(m));
                        assert(payload@ =~= spec_payload(m));
                        assert(false);
                    }
                }
            }
            None
        }
    } else if id == 0x65 {
        match parse_foreflight(&payload) {
            Some(f) => {
                let m = Message::ForeflightIdentify(f);
                proof {
                    lemma_decode_matches(m, frame@, interior@, region@, payload@, crc);
                }
                Some(m)
            },
            None => {
                proof {
                    assert forall|m: Message| m.wf() implies frame@ != spec_frame_bytes(m) by {
                        if frame@ == spec_frame_bytes(m) {
                            lemma_decode_frame_parts(m, frame@, interior@, region@);
                            assert(inner@ =~= spec_inner(m));
                            assert(payload@ =~= spec_payload(m));
                            match m {
                                Message::ForeflightIdentify(f) => {
                                    assert(payload@ == spec_foreflight_payload(f));
                                },
                                _ => {},
                            }
                            assert(false);
                        }
                    }
                }
                None
            },
        }
    } else {
        proof {
            assert forall|m: Message| m.wf() implies frame@ != spec_frame_bytes(m) by {
                if frame@ == spec_frame_bytes(m) {
                    lemma_decode_frame_parts(m, frame@, interior@, region@);
                    assert(inner@ =~= spec_inner(m));
                    assert(false);
                }
            }
        }
        None
    }
}

/// The glue step of a successful decode: a message whose payload,
/// identifier and CRC were all checked against the unescaped region is
/// encoded by exactly the input frame.
proof fn lemma_decode_matches(
    m: Message,
    fr: Seq<u8>,
    interior: Seq<u8>,
    region: Seq<u8>,
    payload: Seq<u8>,
    crc: u16,
)
    requires
        m.wf(),
        fr.len() >= 2,
        fr[0] == 0x7E,
        fr[fr.len() - 1] == 0x7E,
        interior == fr.subrange(1, fr.len() - 1),
        spec_unescape(interior) == Some(region),
        region.len() >= 3,
        payload == region.subrange(1, region.len() - 2),
        payload == spec_payload(m),
        region[0] == spec_message_id(m),
        crc == spec_fcs_crc16(region.subrange(0, region.len() - 2)),
        region[region.len() - 2] == crc % 256,
        region[region.len() - 1] == crc / 256,
    ensures
        fr == spec_frame_bytes(m),
{
    let inner = spec_inner(m);
    assert(region.subrange(0, region.len() - 2) =~= inner);
    assert(region =~= inner + u16_le(spec_fcs_crc16(inner)));
    lemma_escape_unescape(interior);
    assert(fr =~= seq![0x7Eu8] + interior + seq![0x7Eu8]);
    assert(fr =~= spec_frame_bytes(m));
}

/// Field-for-field agreement of two traffic reports, callsigns compared
/// byte for byte.
pub open spec fn traffic_matches(a: Traffic, b: Traffic) -> bool {
    &&& a.traffic_alert_status == b.traffic_alert_status
    &&& a.address_type == b.address_type
    &&& a.participant_address == b.participant_address
    &&& a.latitude == b.latitude
    &&& a.longitude == b.longitude
    &&& a.altitude == b.altitude
    &&& a.misc == b.misc
    &&& a.nic == b.nic
    &&& a.nacp == b.nacp
    &&& a.horiz_velocity == b.horiz_velocity
    &&& a.vert_velocity == b.vert_velocity
    &&& a.track == b.track
    &&& a.emitter_category == b.emitter_category
    &&& a.callsign@ == b.callsign@
}

/// Field-for-field agreement of two messages of the same kind.
pub open spec fn msg_matches(a: Message, b: Message) -> bool {
    match (a, b) {
        (Message::Heartbeat(x), Message::Heartbeat(y)) => {
            &&& x.status.uat_initialized == y.status.uat_initialized
            &&& x.status.ratcs == y.status.ratcs
            &&& x.status.gps_batt_low == y.status.gps_batt_low
            &&& x.status.addr_type == y.status.addr_type
            &&& x.status.ident == y.status.ident
            &&& x.status.maintainance_required == y.status.maintainance_required
            &&& x.status.gps_pos_valid == y.status.gps_pos_valid
            &&& x.status.utc_ok == y.status.utc_ok
            &&& x.status.csa_not_available == y.status.csa_not_available
            &&& x.status.csa_not_requested == y.status.csa_not_requested
            &&& x.status.timestamp_msb == y.status.timestamp_msb
            &&& x.timestamp == y.timestamp
            &&& x.msg_counts == y.msg_counts
        },
        (Message::OwnshipReport(x), Message::OwnshipReport(y)) => traffic_matches(x, y),
        (Message::OwnshipGeometricAltitude(_), Message::OwnshipGeometricAltitude(_)) => true,
        (Message::TrafficReport(x), Message::TrafficReport(y)) => traffic_matches(x, y),
        (Message::ForeflightIdentify(x), Message::ForeflightIdentify(y)) => {
            &&& x.version == y.version
            &&& x.serial_number == y.serial_number
            &&& x.device_name@ == y.device_name@
            &&& x.device_name_long@ == y.device_name_long@
            &&& x.capabilities == y.capabilities
        },
        _ => false,
    }
}

/// Two traffic reports with the same payload agree on every field.
proof fn lemma_traffic_payload_injective(x: Traffic, y: Traffic)
    requires
        x.wf(),
        y.wf(),
        spec_traffic_payload(x) == spec_traffic_payload(y),
    ensures
        traffic_matches(x, y),
{
    lemma_traffic_payload_recovery(x);
    lemma_traffic_payload_recovery(y);
    lemma_tas_injective(x.traffic_alert_status, y.traffic_alert_status);
    lemma_address_type_injective(x.address_type, y.address_type);
    assert(sem24(x.latitude) == sem24(y.latitude));
    assert(sem24(x.longitude) == sem24(y.longitude));
}

/// The round-trip law of the wire format: a frame determines its
/// message.  Two well-formed messages with the same wire frame agree on
/// every field, so decoding an encoded message gives the message back.
pub proof fn lemma_gdl90_round_trip(a: Message, b: Message)
    requires
        a.wf(),
        b.wf(),
        spec_frame_bytes(a) == spec_frame_bytes(b),
    ensures
        msg_matches(a, b),
{
    let ia = spec_inner(a);
    let ib = spec_inner(b);
    let ra = ia + u16_le(spec_fcs_crc16(ia));
    let rb = ib + u16_le(spec_fcs_crc16(ib));
    let fa = spec_frame_bytes(a);
    let fb = spec_frame_bytes(b);
    assert(spec_escape(ra) =~= fa.subrange(1, fa.len() - 1));
    assert(spec_escape(rb) =~= fb.subrange(1, fb.len() - 1));
    lemma_unescape_escape(ra);
    lemma_unescape_escape(rb);
    assert(ra == rb);
    assert(ia =~= ra.subrange(0, ra.len() - 2));
    assert(ib =~= rb.subrange(0, rb.len() - 2));
    assert(ia == ib);
    assert(ia[0] == spec_message_id(a));
    assert(ib[0] == spec_message_id(b));
    assert(spec_payload(a) =~= ia.subrange(1, ia.len() as int));
    assert(spec_payload(b) =~= ib.subrange(1, ib.len() as int));
    assert(spec_payload(a) == spec_payload(b));
    match (a, b) {
        (Message::Heartbeat(x), Message::Heartbeat(y)) => {
            lemma_heartbeat_payload_recovery(x);
            lemma_heartbeat_payload_recovery(y);
        },
        (Message::OwnshipReport(x), Message::OwnshipReport(y)) => {
            lemma_traffic_payload_injective(x, y);
        },
        (Message::OwnshipGeometricAltitude(_), Message::OwnshipGeometricAltitude(_)) => {},
        (Message::TrafficReport(x), Message::TrafficReport(y)) => {
            lemma_traffic_payload_injective(x, y);
        },
        (Message::ForeflightIdentify(x), Message::ForeflightIdentify(y)) => {
            lemma_foreflight_payload_recovery(x);
            lemma_foreflight_payload_recovery(y);
        },
        _ => {},
    }
}


impl ForeflightIdentify {
    /// Builds an identify message, zero-padding (or cutting) the names
    /// to their fixed wire widths.
    pub fn new(
        version: u8,
        serial_number: u64,
        device_name: &Vec<u8>,
        device_name_long: &Vec<u8>,
        capabilities: u32,
    ) -> (r: ForeflightIdentify)
        ensures
            r.wf(),
            r.version == version,
            r.serial_number == serial_number,
            r.capabilities == capabilities,
            forall|i: int|
                0 <= i < 8 ==> r.device_name@[i] == (if i < device_name@.len() {
                    device_name@[i]
                } else {
                    0u8
                }),
            forall|i: int|
                0 <= i < 16 ==> r.device_name_long@[i] == (if i < device_name_long@.len() {
                    device_name_long@[i]
                } else {
                    0u8
                }),
    {
        ForeflightIdentify {
            version,
            serial_number,
            device_name: string_to_sized_vec(8, device_name),
            device_name_long: string_to_sized_vec(16, device_name_long),
            capabilities,
        }
    }
}

/// Builds the periodic heartbeat: the 17-bit seconds-since-UTC-midnight
/// timestamp is split into its low 16 bits and the MSB status flag.
pub fn make_heartbeat(seconds_since_midnight: u32, msg_counts: u16) -> (m: Message)
    requires
        seconds_since_midnight < 86400,
    ensures
        m matches Message::Heartbeat(h) && {
            &&& h.timestamp == seconds_since_midnight % 65536
            &&& h.status.timestamp_msb == (seconds_since_midnight >= 65536)
            &&& h.msg_counts == msg_counts
            &&& h.status.uat_initialized
        },
{
    let mut status = HeartbeatStatus::new();
    status.timestamp_msb = seconds_since_midnight >= 65536;
    Message::Heartbeat(
        Heartbeat { status, timestamp: (seconds_since_midnight % 65536) as u16, msg_counts },
    )
}

/// The cross-format round-trip law: an aircraft whose identification
/// was decoded from a DF 17 frame and re-broadcast as a traffic report
/// keeps its ICAO address, callsign, altitude and position through the
/// GDL-90 wire format, whatever message decodes from those wire bytes.
pub proof fn lemma_mode_s_traffic_round_trip(f: Seq<u8>, t: Traffic, b: Message)
    requires
        t.wf(),
        t.participant_address == crate::adsb::spec_icao(f),
        t.callsign@ == crate::adsb::spec_callsign(f),
        b.wf(),
        spec_frame_bytes(b) == spec_frame_bytes(Message::TrafficReport(t)),
    ensures
        b matches Message::TrafficReport(t2) && {
            &&& t2.participant_address == crate::adsb::spec_icao(f)
            &&& t2.callsign@ == crate::adsb::spec_callsign(f)
            &&& t2.altitude == t.altitude
            &&& t2.latitude == t.latitude
            &&& t2.longitude == t.longitude
        },
{
    lemma_gdl90_round_trip(Message::TrafficReport(t), b);
}

} // verus!
