//! The aircraft tracker: a table keyed by 24-bit ICAO address, upserted
//! on every parsed message and lazily evicted after 60 seconds of
//! silence.

use vstd::prelude::*;

use std::collections::HashMap;

use crate::adsb::{AdsbKind, Message, MessageKind};
use crate::gdl90::{Traffic, TrafficAddressType, TrafficAlertStatus};

verus! {

/// One CPR position frame with the time it was received.
#[derive(Clone, Copy, PartialEq, Eq, Structural)]
pub struct CprFrame {
    pub lat_cpr: u32,
    pub lon_cpr: u32,
    pub time: u64,
}

/// The tracked state of one aircraft.
pub struct Aircraft {
    pub icao: u32,
    pub callsign: Option<Vec<u8>>,
    pub squawk: Option<u16>,
    pub emitter_category: Option<u8>,
    pub on_ground: Option<bool>,
    pub altitude: Option<i32>,
    pub latitude: Option<i32>,
    pub longitude: Option<i32>,
    pub cpr_even: Option<CprFrame>,
    pub cpr_odd: Option<CprFrame>,
    pub msg_count: u64,
    pub last_seen: u64,
}

/// A record as it stands when an ICAO address is first heard.
pub open spec fn fresh_aircraft(icao: u32) -> Aircraft {
    Aircraft {
        icao,
        callsign: None,
        squawk: None,
        emitter_category: None,
        on_ground: None,
        altitude: None,
        latitude: None,
        longitude: None,
        cpr_even: None,
        cpr_odd: None,
        msg_count: 0,
        last_seen: 0,
    }
}

/// How one message changes a record: `last_seen` moves to `now`, the
/// message count grows by one (saturating), the fields the message
/// carries are merged in, and everything else is kept.
pub open spec fn aircraft_updated(pre: Aircraft, kind: MessageKind, now: u64, post: Aircraft) -> bool {
    &&& post.icao == pre.icao
    &&& post.last_seen == now
    &&& post.msg_count == if pre.msg_count < u64::MAX {
        (pre.msg_count + 1) as u64
    } else {
        u64::MAX
    }
    &&& post.latitude == pre.latitude
    &&& post.longitude == pre.longitude
    &&& match kind {
        MessageKind::ShortAirAir { altitude } | MessageKind::SurveillanceAltitude { altitude }
            | MessageKind::LongAirAir { altitude } | MessageKind::CommBAltitude { altitude } => {
            &&& post.altitude == if altitude is Some {
                altitude
            } else {
                pre.altitude
            }
            &&& post.callsign == pre.callsign
            &&& post.squawk == pre.squawk
            &&& post.emitter_category == pre.emitter_category
            &&& post.on_ground == pre.on_ground
            &&& post.cpr_even == pre.cpr_even
            &&& post.cpr_odd == pre.cpr_odd
        },
        MessageKind::SurveillanceIdentity { squawk } | MessageKind::CommBIdentity { squawk } => {
            &&& post.squawk == Some(squawk)
            &&& post.callsign == pre.callsign
            &&& post.altitude == pre.altitude
            &&& post.emitter_category == pre.emitter_category
            &&& post.on_ground == pre.on_ground
            &&& post.cpr_even == pre.cpr_even
            &&& post.cpr_odd == pre.cpr_odd
        },
        MessageKind::AllCallReply => {
            &&& post.callsign == pre.callsign
            &&& post.squawk == pre.squawk
            &&& post.altitude == pre.altitude
            &&& post.emitter_category == pre.emitter_category
            &&& post.on_ground == pre.on_ground
            &&& post.cpr_even == pre.cpr_even
            &&& post.cpr_odd == pre.cpr_odd
        },
        MessageKind::ExtendedSquitter(adsb) => match adsb {
            AdsbKind::AircraftIdentification { category, callsign, .. } => {
                &&& post.callsign matches Some(c) && c@ == callsign@
                &&& post.emitter_category == Some(category)
                &&& post.squawk == pre.squawk
                &&& post.altitude == pre.altitude
                &&& post.on_ground == pre.on_ground
                &&& post.cpr_even == pre.cpr_even
                &&& post.cpr_odd == pre.cpr_odd
            },
            AdsbKind::SurfacePosition { odd, lat_cpr, lon_cpr, .. } => {
                &&& post.on_ground == Some(true)
                &&& post.callsign == pre.callsign
                &&& post.squawk == pre.squawk
                &&& post.altitude == pre.altitude
                &&& post.emitter_category == pre.emitter_category
                &&& if odd {
                    post.cpr_odd == Some(CprFrame { lat_cpr, lon_cpr, time: now })
                        && post.cpr_even == pre.cpr_even
                } else {
                    post.cpr_even == Some(CprFrame { lat_cpr, lon_cpr, time: now })
                        && post.cpr_odd == pre.cpr_odd
                }
            },
            AdsbKind::AirbornePosition { altitude, odd, lat_cpr, lon_cpr, .. } => {
                &&& post.on_ground == Some(false)
                &&& post.altitude == if altitude is Some {
                    altitude
                } else {
                    pre.altitude
                }
                &&& post.callsign == pre.callsign
                &&& post.squawk == pre.squawk
                &&& post.emitter_category == pre.emitter_category
                &&& if odd {
                    post.cpr_odd == Some(CprFrame { lat_cpr, lon_cpr, time: now })
                        && post.cpr_even == pre.cpr_even
                } else {
                    post.cpr_even == Some(CprFrame { lat_cpr, lon_cpr, time: now })
                        && post.cpr_odd == pre.cpr_odd
                }
            },
            AdsbKind::AirborneVelocity { .. } | AdsbKind::Unsupported { .. } => {
                &&& post.callsign == pre.callsign
                &&& post.squawk == pre.squawk
                &&& post.altitude == pre.altitude
                &&& post.emitter_category == pre.emitter_category
                &&& post.on_ground == pre.on_ground
                &&& post.cpr_even == pre.cpr_even
                &&& post.cpr_odd == pre.cpr_odd
            },
        },
    }
}

impl Aircraft {
    /// A fresh record for a newly heard address.
    pub fn new(icao: u32) -> (a: Aircraft)
        ensures
            a == fresh_aircraft(icao),
    {
        Aircraft {
            icao,
            callsign: None,
            squawk: None,
            emitter_category: None,
            on_ground: None,
            altitude: None,
            latitude: None,
            longitude: None,
            cpr_even: None,
            cpr_odd: None,
            msg_count: 0,
            last_seen: 0,
        }
    }

    /// Merges one message into the record.
    pub fn update(&mut self, kind: &MessageKind, now: u64)
        ensures
            aircraft_updated(*old(self), *kind, now, *final(self)),
    {
        match kind {
            MessageKind::ShortAirAir { altitude } | MessageKind::SurveillanceAltitude {
                altitude,
            } | MessageKind::LongAirAir { altitude } | MessageKind::CommBAltitude { altitude } => {
                if altitude.is_some() {
                    self.altitude = *altitude;
                }
            },
            MessageKind::SurveillanceIdentity { squawk } | MessageKind::CommBIdentity {
                squawk,
            } => {
                self.squawk = Some(*squawk);
            },
            MessageKind::AllCallReply => {},
            MessageKind::ExtendedSquitter(adsb) => match adsb {
                AdsbKind::AircraftIdentification { category, callsign, .. } => {
                    let mut c: Vec<u8> = Vec::new();
                    let mut i: usize = 0;
                    while i < callsign.len()
                        invariant
                            i <= callsign@.len(),
                            c@ == callsign@.subrange(0, i as int),
                        decreases callsign@.len() - i,
                    {
                        let b: u8 = callsign[i];
                        c.push(b);
                        i = i + 1;
                        proof {
                            assert(callsign@.subrange(0, i - 1) + seq![callsign@[i - 1]]
                                =~= callsign@.subrange(0, i as int));
                        }
                    }
                    proof {
                        assert(callsign@.subrange(0, callsign@.len() as int) =~= callsign@);
                    }
                    self.callsign = Some(c);
                    self.emitter_category = Some(*category);
                },
                AdsbKind::SurfacePosition { odd, lat_cpr, lon_cpr, .. } => {
                    self.on_ground = Some(true);
                    let cpr = CprFrame { lat_cpr: *lat_cpr, lon_cpr: *lon_cpr, time: now };
                    if *odd {
                        self.cpr_odd = Some(cpr);
                    } else {
                        self.cpr_even = Some(cpr);
                    }
                },
                AdsbKind::AirbornePosition { altitude, odd, lat_cpr, lon_cpr, .. } => {
                    self.on_ground = Some(false);
                    if altitude.is_some() {
                        self.altitude = *altitude;
                    }
                    let cpr = CprFrame { lat_cpr: *lat_cpr, lon_cpr: *lon_cpr, time: now };
                    if *odd {
                        self.cpr_odd = Some(cpr);
                    } else {
                        self.cpr_even = Some(cpr);
                    }
                },
                AdsbKind::AirborneVelocity { .. } | AdsbKind::Unsupported { .. } => {},
            },
        }
        if self.msg_count < u64::MAX {
            self.msg_count = self.msg_count + 1;
        }
        self.last_seen = now;
    }
}

/// The aircraft table.  The vector holds each tracked address exactly
/// once, in order of first sighting, and mirrors the map's domain.
pub struct Tracker {
    pub db: HashMap<u32, Aircraft>,
    pub order: Vec<u32>,
}

impl Tracker {
    /// The table's invariant: the order vector lists the map's keys,
    /// each exactly once.
    pub open spec fn wf(&self) -> bool {
        &&& forall|i: int, j: int|
            0 <= i < j < self.order@.len() ==> self.order@[i] != self.order@[j]
        &&& forall|i: int|
            0 <= i < self.order@.len() ==> #[trigger] self.db@.contains_key(self.order@[i])
        &&& forall|k: u32| #[trigger] self.db@.contains_key(k) ==> self.order@.contains(k)
    }

    pub fn new() -> (t: Tracker)
        ensures
            t.wf(),
            t.db@ == Map::<u32, Aircraft>::empty(),
            t.order@.len() == 0,
    {
        Tracker { db: HashMap::new(), order: Vec::new() }
    }

    /// Upserts the message's aircraft: the record is created on first
    /// sight and merged per `aircraft_updated`; no other entry moves.
    pub fn process(&mut self, msg: &Message, now: u64)
        requires
            old(self).wf(),
        ensures
            final(self).wf(),
            final(self).db@.contains_key(msg.icao),
            aircraft_updated(
                if old(self).db@.contains_key(msg.icao) {
                    old(self).db@[msg.icao]
                } else {
                    fresh_aircraft(msg.icao)
                },
                msg.kind,
                now,
                final(self).db@[msg.icao],
            ),
            final(self).db@ == old(self).db@.insert(msg.icao, final(self).db@[msg.icao]),
    {
        let icao: u32 = msg.icao;
        let mut entry: Aircraft = match self.db.remove(&icao) {
            Some(a) => a,
            None => Aircraft::new(icao),
        };
        entry.update(&msg.kind, now);
        let _ = self.db.insert(icao, entry);
        let had: bool = self.order_contains(icao);
        if !had {
            self.order.push(icao);
        }
        proof {
            assert(self.db@ =~= old(self).db@.insert(icao, self.db@[icao]));
            assert forall|k: u32| self.db@.contains_key(k) implies self.order@.contains(k) by {
                if k == icao {
                    if had {
                        let i = choose|i: int|
                            0 <= i < old(self).order@.len() && old(self).order@[i] == icao;
                        assert(self.order@[i] == k);
                    } else {
                        assert(self.order@[self.order@.len() - 1] == k);
                    }
                } else {
                    assert(old(self).db@.contains_key(k));
                    assert(old(self).order@.contains(k));
                    let i = choose|i: int|
                        0 <= i < old(self).order@.len() && old(self).order@[i] == k;
                    assert(self.order@[i] == k);
                }
            }
        }
    }

    /// Whether an address already stands in the order vector.
    fn order_contains(&self, icao: u32) -> (r: bool)
        ensures
            r == self.order@.contains(icao),
    {
        let n: usize = self.order.len();
        let mut i: usize = 0;
        while i < n
            invariant
                i <= n,
                n == self.order@.len(),
                forall|j: int| 0 <= j < i ==> self.order@[j] != icao,
            decreases n - i,
        {
            if self.order[i] == icao {
                return true;
            }
            i = i + 1;
        }
        false
    }

    /// Looks an aircraft up by address.
    pub fn get(&self, icao: u32) -> (r: Option<&Aircraft>)
        ensures
            match r {
                Some(a) => self.db@.contains_key(icao) && *a == self.db@[icao],
                None => !self.db@.contains_key(icao),
            },
    {
        self.db.get(&icao)
    }

    /// The tracked addresses, in order of first sighting.
    pub fn icaos(&self) -> (r: &Vec<u32>)
        ensures
            r@ == self.order@,
    {
        &self.order
    }

    /// How many aircraft are tracked.
    pub fn len(&self) -> (n: usize)
        requires
            self.wf(),
        ensures
            n == self.db@.len(),
    {
        proof {
            crate::tracker::lemma_order_counts_db(self);
        }
        self.order.len()
    }

    /// Removes every record not heard from within the last 60 seconds:
    /// a record survives exactly when `now <= last_seen + 60`.
    pub fn evict(&mut self, now: u64)
        requires
            old(self).wf(),
        ensures
            final(self).wf(),
            forall|k: u32|
                final(self).db@.contains_key(k) <==> (old(self).db@.contains_key(k)
                    && now <= #[trigger] old(self).db@.index(k).last_seen + 60),
            forall|k: u32|
                final(self).db@.contains_key(k) ==> final(self).db@[k] == old(self).db@[k],
    {
        let ghost odb = old(self).db@;
        let ghost oorder = old(self).order@;
        let n: usize = self.order.len();
        let mut kept: Vec<u32> = Vec::new();
        let mut i: usize = 0;
        while i < n
            invariant
                i <= n,
                n == oorder.len(),
                self.order@ == oorder,
                forall|a: int, b: int| 0 <= a < b < oorder.len() ==> oorder[a] != oorder[b],
                forall|a: int| 0 <= a < oorder.len() ==> #[trigger] odb.contains_key(oorder[a]),
                forall|k: u32| #[trigger] odb.contains_key(k) ==> oorder.contains(k),
                forall|k: u32|
                    #[trigger] self.db@.contains_key(k) ==> odb.contains_key(k) && self.db@[k]
                        == odb.index(k),
                forall|k: u32|
                    odb.contains_key(k) && now <= #[trigger] odb.index(k).last_seen + 60
                        ==> self.db@.contains_key(k),
                forall|j: int|
                    0 <= j < i && odb.index(oorder[j]).last_seen + 60 < now
                        ==> !self.db@.contains_key(#[trigger] oorder[j]),
                forall|j: int| i <= j < n ==> self.db@.contains_key(#[trigger] oorder[j]),
                forall|j: int|
                    0 <= j < i && now <= odb.index(oorder[j]).last_seen + 60 ==> kept@.contains(
                        #[trigger] oorder[j],
                    ),
                forall|a: int| 0 <= a < kept@.len() ==> self.db@.contains_key(#[trigger] kept@[a]),
                forall|a: int|
                    0 <= a < kept@.len() ==> exists|j: int|
                        0 <= j < i && #[trigger] kept@[a] == oorder[j],
                forall|a: int, b: int| 0 <= a < b < kept@.len() ==> kept@[a] != kept@[b],
            decreases n - i,
        {
            let icao: u32 = self.order[i];
            let a = match self.db.get(&icao) {
                Some(a) => a,
                None => {
                    proof {
                        assert(self.db@.contains_key(oorder[i as int]));
                        assert(false);
                    }
                    return ;
                },
            };
            let stale: bool = now > 60 && a.last_seen < now - 60;
            proof {
                assert(odb.contains_key(icao));
                assert(stale == (odb.index(icao).last_seen + 60 < now));
            }
            let ghost db0 = self.db@;
            let ghost kept0 = kept@;
            if stale {
                let _ = self.db.remove(&icao);
                proof {
                    assert(self.db@ == db0.remove(icao));
                    assert forall|k: u32| self.db@.contains_key(k) implies odb.contains_key(k)
                        && self.db@[k] == odb.index(k) by {
                        assert(k != icao);
                        assert(db0.contains_key(k));
                    }
                }
            } else {
                kept.push(icao);
                proof {
                    assert(kept@ == kept0.push(icao));
                    assert(kept@[kept@.len() - 1] == icao);
                    assert forall|j: int|
                        0 <= j < i + 1 && now <= odb.index(oorder[j]).last_seen + 60 implies
                        kept@.contains(#[trigger] oorder[j]) by {
                        if j < i {
                            let a2 = choose|a2: int|
                                0 <= a2 < kept0.len() && kept0[a2] == oorder[j];
                            assert(kept@[a2] == oorder[j]);
                        } else {
                            assert(kept@[kept@.len() - 1] == oorder[j]);
                        }
                    }
                }
            }
            i = i + 1;
        }
        self.order = kept;
        proof {
            assert forall|k: u32| self.db@.contains_key(k) implies self.order@.contains(k) by {
                assert(odb.contains_key(k));
                assert(oorder.contains(k));
                let j = choose|j: int| 0 <= j < oorder.len() && oorder[j] == k;
                assert(now <= odb.index(k).last_seen + 60);
            }
        }
    }

    /// Whether a vector holds an address.
    fn vec_contains(v: &Vec<u32>, icao: u32) -> (r: bool)
        ensures
            r == v@.contains(icao),
    {
        let n: usize = v.len();
        let mut i: usize = 0;
        while i < n
            invariant
                i <= n,
                n == v@.len(),
                forall|j: int| 0 <= j < i ==> v@[j] != icao,
            decreases n - i,
        {
            if v[i] == icao {
                return true;
            }
            i = i + 1;
        }
        false
    }
}

/// In a well-formed tracker the order vector and the map have the same
/// cardinality: every address is tracked exactly once.
pub proof fn lemma_order_counts_db(t: &Tracker)
    requires
        t.wf(),
    ensures
        t.order@.len() == t.db@.len(),
{
    assert(t.order@.no_duplicates());
    t.order@.unique_seq_to_set();
    assert(t.order@.to_set() =~= t.db@.dom());
}



/// The wire encoding of a tracked altitude: `(feet + 1000) / 25`,
/// clamped to the 12-bit field, with all-ones for unknown.
pub open spec fn spec_alt_encode(ft: Option<i32>) -> u16 {
    match ft {
        None => 4095,
        Some(v) => if v < -1000 {
            0
        } else if v > 101374 {
            4094
        } else {
            (((v + 1000) / 25) as u16)
        },
    }
}

/// A tracked position component clamped to the signed 24-bit wire
/// range; zero when unknown.
pub open spec fn spec_sem_clamp(v: Option<i32>) -> i32 {
    match v {
        None => 0,
        Some(x) => if x < -0x800000 {
            -0x800000i32
        } else if x >= 0x800000 {
            0x7FFFFFi32
        } else {
            x
        },
    }
}

/// The 8-byte report callsign: the tracked callsign zero-padded, or
/// all spaces when none was heard.
pub open spec fn spec_report_callsign(c: Option<Vec<u8>>) -> Seq<u8> {
    match c {
        Some(v) => Seq::new(8, |i: int| if i < v@.len() {
            v@[i]
        } else {
            0u8
        }),
        None => Seq::new(8, |i: int| 32u8),
    }
}

impl Aircraft {
    /// The GDL-90 traffic report for this aircraft.
    pub fn traffic_report(&self) -> (t: Traffic)
        requires
            self.icao < 0x1000000,
        ensures
            t.wf(),
            t.participant_address == self.icao,
            t.altitude == spec_alt_encode(self.altitude),
            t.latitude == spec_sem_clamp(self.latitude),
            t.longitude == spec_sem_clamp(self.longitude),
            t.callsign@ == spec_report_callsign(self.callsign),
            t.emitter_category == (match self.emitter_category {
                Some(e) => e,
                None => 0u8,
            }),
            t.misc == (if self.on_ground == Some(true) {
                1u8
            } else {
                9u8
            }),
    {
        let altitude: u16 = match self.altitude {
            None => 4095,
            Some(v) => if v < -1000 {
                0
            } else if v > 101374 {
                4094
            } else {
                ((v + 1000) / 25) as u16
            },
        };
        let latitude: i32 = match self.latitude {
            None => 0,
            Some(x) => if x < -0x800000 {
                -0x800000
            } else if x >= 0x800000 {
                0x7FFFFF
            } else {
                x
            },
        };
        let longitude: i32 = match self.longitude {
            None => 0,
            Some(x) => if x < -0x800000 {
                -0x800000
            } else if x >= 0x800000 {
                0x7FFFFF
            } else {
                x
            },
        };
        let callsign: Vec<u8> = match &self.callsign {
            Some(c) => crate::gdl90::string_to_sized_vec(8, c),
            None => {
                let mut v: Vec<u8> = Vec::new();
                let mut i: usize = 0;
                while i < 8
                    invariant
                        i <= 8,
                        v@.len() == i,
                        forall|j: int| 0 <= j < i ==> v@[j] == 32u8,
                    decreases 8 - i,
                {
                    v.push(32);
                    i = i + 1;
                }
                v
            },
        };
        let t = Traffic {
            traffic_alert_status: TrafficAlertStatus::NoAlert,
            address_type: TrafficAddressType::ADSBWithIcao,
            participant_address: self.icao,
            latitude,
            longitude,
            altitude,
            misc: if self.on_ground == Some(true) {
                1
            } else {
                9
            },
            nic: 8,
            nacp: 8,
            horiz_velocity: 0,
            vert_velocity: 0,
            track: 0,
            emitter_category: match self.emitter_category {
                Some(e) => e,
                None => 0,
            },
            callsign,
        };
        proof {
            assert(t.callsign@ =~= spec_report_callsign(self.callsign));
        }
        t
    }
}


/// The CPR pairing window, in seconds.
pub const CPR_PAIR_WINDOW: u64 = 10;

impl Aircraft {
    /// The even/odd CPR pair of this aircraft when a globally
    /// unambiguous position decode is possible: both frames are
    /// present and within the pairing window of each other.
    pub fn cpr_pair(&self) -> (r: Option<(CprFrame, CprFrame)>)
        ensures
            match r {
                Some(p) => {
                    &&& self.cpr_even == Some(p.0)
                    &&& self.cpr_odd == Some(p.1)
                    &&& p.0.time <= p.1.time + CPR_PAIR_WINDOW
                    &&& p.1.time <= p.0.time + CPR_PAIR_WINDOW
                },
                None => self.cpr_even is None || self.cpr_odd is None || (match (
                    self.cpr_even,
                    self.cpr_odd,
                ) {
                    (Some(e), Some(o)) => e.time > o.time + CPR_PAIR_WINDOW || o.time > e.time
                        + CPR_PAIR_WINDOW,
                    _ => true,
                }),
            },
    {
        match (self.cpr_even, self.cpr_odd) {
            (Some(e), Some(o)) => {
                let near: bool = if e.time >= o.time {
                    e.time - o.time <= CPR_PAIR_WINDOW
                } else {
                    o.time - e.time <= CPR_PAIR_WINDOW
                };
                if near {
                    Some((e, o))
                } else {
                    None
                }
            },
            _ => None,
        }
    }
}

impl Tracker {
    /// Stores a decoded position (in 24-bit semicircle units) on an
    /// aircraft; every other field, and every other record, is kept.
    pub fn set_position(&mut self, icao: u32, latitude: i32, longitude: i32)
        requires
            old(self).wf(),
        ensures
            final(self).wf(),
            final(self).db@.dom() == old(self).db@.dom(),
            old(self).db@.contains_key(icao) ==> {
                let pre = old(self).db@[icao];
                let post = final(self).db@[icao];
                &&& post.latitude == Some(latitude)
                &&& post.longitude == Some(longitude)
                &&& post.icao == pre.icao
                &&& post.callsign == pre.callsign
                &&& post.squawk == pre.squawk
                &&& post.emitter_category == pre.emitter_category
                &&& post.on_ground == pre.on_ground
                &&& post.altitude == pre.altitude
                &&& post.cpr_even == pre.cpr_even
                &&& post.cpr_odd == pre.cpr_odd
                &&& post.msg_count == pre.msg_count
                &&& post.last_seen == pre.last_seen
            },
            forall|k: u32|
                k != icao && old(self).db@.contains_key(k) ==> final(self).db@[k] == old(
                    self,
                ).db@.index(k),
            !old(self).db@.contains_key(icao) ==> final(self).db@ == old(self).db@,
    {
        let mut entry: Aircraft = match self.db.remove(&icao) {
            Some(a) => a,
            None => {
                proof {
                    assert(self.db@ =~= old(self).db@);
                }
                return ;
            },
        };
        entry.latitude = Some(latitude);
        entry.longitude = Some(longitude);
        let _ = self.db.insert(icao, entry);
        proof {
            assert(self.db@.dom() =~= old(self).db@.dom());
        }
    }
}

} // verus!
