//! Classification of raw advertisement events: route each event to the one
//! decoder its broadcast-name prefix and vendor key select, or drop it.

use std::collections::HashMap;

use vstd::prelude::*;
use vstd::string::StrSliceExecFns;

use crate::decode::{atc_fields, govee_fields, parse_atc_data, parse_govee_data};
use crate::record::Record;

verus! {

/// The manufacturer-data key under which Govee devices broadcast.
pub const GOVEE_MANUFACTURER_ID: u16 = 60552;

/// The 128-bit environmental-sensing service UUID
/// (`0000181a-0000-1000-8000-00805f9b34fb`) under which ATC devices
/// broadcast.
pub const ATC_SERVICE_UUID: u128 = 0x0000181a_0000_1000_8000_00805f9b34fb;

/// One advertisement event, after the adapter has resolved the reporting
/// device's broadcast name. An event is transient: classification reads it
/// once and retains nothing.
pub enum Advertisement {
    /// A manufacturer-data advertisement, keyed by 16-bit vendor id.
    ManufacturerData { name: Option<String>, manufacturer_data: HashMap<u16, Vec<u8>> },
    /// A service-data advertisement, keyed by the 128-bit service UUID.
    ServiceData { name: Option<String>, service_data: HashMap<u128, Vec<u8>> },
    /// Any other event shape: connections, disconnections, service lists.
    Other,
}

/// `p` is a prefix of `s`.
pub open spec fn has_prefix(s: Seq<char>, p: Seq<char>) -> bool {
    p.len() <= s.len() && s.subrange(0, p.len() as int) == p
}

/// What classification makes of one event: `None` unless the event shape, the
/// resolved name prefix, the vendor key and the decoder all match, and then
/// the decoded name, temperature, humidity (both in thousandths) and battery
/// byte.
pub open spec fn classify_spec(event: Advertisement) -> Option<(Seq<char>, int, int, u8)> {
    match event {
        Advertisement::ManufacturerData { name, manufacturer_data } => match name {
            Some(n) => if has_prefix(n@, "GVH"@) && manufacturer_data@.contains_key(
                GOVEE_MANUFACTURER_ID,
            ) {
                match govee_fields(manufacturer_data@[GOVEE_MANUFACTURER_ID]@) {
                    Some(f) => Some((n@, f.0, f.1, f.2)),
                    None => None,
                }
            } else {
                None
            },
            None => None,
        },
        Advertisement::ServiceData { name, service_data } => match name {
            Some(n) => if has_prefix(n@, "ATC_"@) && service_data@.contains_key(ATC_SERVICE_UUID)
                && service_data@[ATC_SERVICE_UUID]@.len() >= 15 {
                Some(
                    (
                        n@,
                        atc_fields(service_data@[ATC_SERVICE_UUID]@).0,
                        atc_fields(service_data@[ATC_SERVICE_UUID]@).1,
                        atc_fields(service_data@[ATC_SERVICE_UUID]@).2,
                    ),
                )
            } else {
                None
            },
            None => None,
        },
        Advertisement::Other => None,
    }
}

/// True when `p` is a prefix of `s`, character by character.
fn str_has_prefix(s: &str, p: &str) -> (r: bool)
    ensures
        r == has_prefix(s@, p@),
{
    let n: usize = s.unicode_len();
    let m: usize = p.unicode_len();
    if m > n {
        return false;
    }
    let mut i: usize = 0;
    while i < m
        invariant
            0 <= i <= m,
            m <= n,
            n == s@.len(),
            m == p@.len(),
            forall|k: int| 0 <= k < i ==> s@[k] == p@[k],
        decreases m - i,
    {
        if s.get_char(i) != p.get_char(i) {
            proof {
                assert(s@.subrange(0, p@.len() as int)[i as int] != p@[i as int]);
            }
            return false;
        }
        i = i + 1;
    }
    proof {
        assert(s@.subrange(0, p@.len() as int) =~= p@);
    }
    true
}

/// Classify one advertisement event.
///
/// Manufacturer-data events need a resolved name starting with `GVH` and the
/// Govee vendor key; service-data events need a name starting with `ATC_`,
/// the service UUID, and at least 15 bytes of payload — the ATC decoder's
/// length precondition is discharged here, so a short buffer never reaches
/// it. Every miss is absence, never an error: a scanning radio sees mostly
/// unrelated traffic.
pub fn classify(event: &Advertisement) -> (r: Option<Record>)
    ensures
        r is Some <==> classify_spec(*event) is Some,
        (match r {
            Some(rec) => {
                let f = classify_spec(*event)->Some_0;
                &&& rec.name@ == f.0
                &&& rec.temp as int == f.1
                &&& rec.humi as int == f.2
                &&& rec.batt == f.3
            },
            None => true,
        }),
{
    match event {
        Advertisement::ManufacturerData { name, manufacturer_data } => match name {
            Some(n) => {
                if str_has_prefix(n.as_str(), "GVH") {
                    match manufacturer_data.get(&GOVEE_MANUFACTURER_ID) {
                        Some(data) => parse_govee_data(n.clone(), data.as_slice()),
                        None => None,
                    }
                } else {
                    None
                }
            },
            None => None,
        },
        Advertisement::ServiceData { name, service_data } => match name {
            Some(n) => {
                if str_has_prefix(n.as_str(), "ATC_") {
                    match service_data.get(&ATC_SERVICE_UUID) {
                        Some(data) => {
                            if data.len() >= 15 {
                                parse_atc_data(n.clone(), data.as_slice())
                            } else {
                                None
                            }
                        },
                        None => None,
                    }
                } else {
                    None
                }
            },
            None => None,
        },
        Advertisement::Other => None,
    }
}

/// The measurements a whole event sequence classifies to, in arrival order:
/// exactly the classification successes, each in its original position
/// relative to the others.
pub open spec fn classify_seq(events: Seq<Advertisement>) -> Seq<(Seq<char>, int, int, u8)>
    decreases events.len(),
{
    if events.len() == 0 {
        Seq::empty()
    } else {
        match classify_spec(events[0]) {
            Some(f) => seq![f] + classify_seq(events.drop_first()),
            None => classify_seq(events.drop_first()),
        }
    }
}

proof fn lemma_classify_seq_snoc(events: Seq<Advertisement>, event: Advertisement)
    ensures
        classify_seq(events.push(event)) == (match classify_spec(event) {
            Some(f) => classify_seq(events).push(f),
            None => classify_seq(events),
        }),
    decreases events.len(),
{
    let s = events.push(event);
    if events.len() == 0 {
        assert(s[0] == event);
        assert(s.drop_first() =~= Seq::<Advertisement>::empty());
        assert(classify_seq(s.drop_first()) =~= Seq::<(Seq<char>, int, int, u8)>::empty());
        assert(classify_seq(events) =~= Seq::<(Seq<char>, int, int, u8)>::empty());
        match classify_spec(event) {
            Some(f) => {
                assert(classify_seq(s) == seq![f] + classify_seq(s.drop_first()));
                assert(seq![f] + classify_seq(s.drop_first()) =~= classify_seq(events).push(f));
            },
            None => {
                assert(classify_seq(s) == classify_seq(s.drop_first()));
            },
        }
    } else {
        assert(s[0] == events[0]);
        assert(s.drop_first() =~= events.drop_first().push(event));
        lemma_classify_seq_snoc(events.drop_first(), event);
        let tail = classify_seq(events.drop_first());
        match classify_spec(event) {
            Some(f) => {
                assert(classify_seq(s.drop_first()) == tail.push(f));
                match classify_spec(events[0]) {
                    Some(g) => {
                        assert(classify_seq(s) == seq![g] + tail.push(f));
                        assert(classify_seq(events) == seq![g] + tail);
                        assert(seq![g] + tail.push(f) =~= (seq![g] + tail).push(f));
                    },
                    None => {
                        assert(classify_seq(s) == tail.push(f));
                        assert(classify_seq(events) == tail);
                    },
                }
            },
            None => {
                assert(classify_seq(s.drop_first()) == tail);
                match classify_spec(events[0]) {
                    Some(g) => {
                        assert(classify_seq(s) == seq![g] + tail);
                        assert(classify_seq(events) == seq![g] + tail);
                    },
                    None => {
                        assert(classify_seq(s) == tail);
                        assert(classify_seq(events) == tail);
                    },
                }
            },
        }
    }
}

/// `rs` are exactly the decoded forms listed in `fs`, element by element.
pub open spec fn records_match(rs: Seq<Record>, fs: Seq<(Seq<char>, int, int, u8)>) -> bool {
    &&& rs.len() == fs.len()
    &&& forall|i: int|
        0 <= i < rs.len() ==> {
            &&& (#[trigger] rs[i]).name@ == fs[i].0
            &&& rs[i].temp as int == fs[i].1
            &&& rs[i].humi as int == fs[i].2
            &&& rs[i].batt == fs[i].3
        }
}

/// Classify a finite event sequence in arrival order.
///
/// The result holds exactly the classification successes of `events`, in
/// their original relative order — one pass, no reordering, no batching.
pub fn classify_all(events: &Vec<Advertisement>) -> (out: Vec<Record>)
    ensures
        records_match(out@, classify_seq(events@)),
{
    let mut out: Vec<Record> = Vec::new();
    let mut i: usize = 0;
    while i < events.len()
        invariant
            0 <= i <= events@.len(),
            records_match(out@, classify_seq(events@.subrange(0, i as int))),
        decreases events@.len() - i,
    {
        proof {
            assert(events@.subrange(0, i + 1) =~= events@.subrange(0, i as int).push(
                events@[i as int],
            ));
            lemma_classify_seq_snoc(events@.subrange(0, i as int), events@[i as int]);
        }
        match classify(&events[i]) {
            Some(rec) => out.push(rec),
            None => {},
        }
        i = i + 1;
    }
    proof {
        assert(events@.subrange(0, events@.len() as int) =~= events@);
    }
    out
}

/// Prefix exclusivity, manufacturer-data side: whatever the data map holds —
/// the vendor key included — an event whose resolved name does not start with
/// `GVH` classifies to nothing.
pub proof fn lemma_prefix_exclusivity_manufacturer(name: String, data: HashMap<u16, Vec<u8>>)
    requires
        !has_prefix(name@, "GVH"@),
    ensures
        classify_spec(
            (Advertisement::ManufacturerData { name: Some(name), manufacturer_data: data }),
        ) is None,
{
}

/// Prefix exclusivity, service-data side: whatever the data map holds — the
/// service UUID included — an event whose resolved name does not start with
/// `ATC_` classifies to nothing.
pub proof fn lemma_prefix_exclusivity_service(name: String, data: HashMap<u128, Vec<u8>>)
    requires
        !has_prefix(name@, "ATC_"@),
    ensures
        classify_spec((Advertisement::ServiceData { name: Some(name), service_data: data }))
            is None,
{
}

} // verus!
