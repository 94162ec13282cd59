//! Read-only queries over the store: the full listing and the leakage scan.
use crate::event::{ElectricityEvent, EventView};
use crate::store::{is_listing, views, Store};
use vstd::prelude::*;

verus! {

/// A current above this many units counts as leakage.
pub const CURRENT_LIMIT: u64 = 100;

/// A voltage above this many units counts as leakage.
pub const VOLTAGE_LIMIT: u64 = 200;

/// Outcome of the leakage scan.
#[derive(Clone, Copy, Debug, PartialEq, Eq, Structural)]
pub enum LeakageStatus {
    NoLeakage,
    LeakageDetected,
}

/// The reading is beyond one of the limits.
pub open spec fn is_leak(e: EventView) -> bool {
    e.current > CURRENT_LIMIT || e.voltage > VOLTAGE_LIMIT
}

/// Some stored reading is beyond one of the limits.
pub open spec fn has_leak(m: Map<u64, EventView>) -> bool {
    exists|k: u64| #[trigger] m.contains_key(k) && is_leak(m[k])
}

/// Every stored record, by ascending timestamp. With the store at hand this never fails.
pub fn get_electricity_events(store: &Store) -> (r: Result<Vec<ElectricityEvent>, String>)
    requires
        store.wf(),
    ensures
        r is Ok,
        r is Ok ==> is_listing(views(r->Ok_0@), store@),
{
    Ok(store.get_all())
}

/// `LeakageDetected` exactly when some stored record has a current above
/// [`CURRENT_LIMIT`] or a voltage above [`VOLTAGE_LIMIT`]; the scan stops at the first.
pub fn detect_electrical_leakage(store: &Store) -> (r: LeakageStatus)
    requires
        store.wf(),
    ensures
        r == LeakageStatus::LeakageDetected <==> has_leak(store@),
        r == LeakageStatus::NoLeakage <==> !has_leak(store@),
{
    let events = store.values();
    let mut i: usize = 0;
    while i < events.len()
        invariant
            forall|a: int|
                0 <= a < events@.len() ==> #[trigger] store@.contains_key(events@[a].timestamp)
                    && store@[events@[a].timestamp] == events@[a]@,
            forall|k: u64|
                #[trigger] store@.contains_key(k) ==> exists|a: int|
                    0 <= a < events@.len() && events@[a]@ == store@[k],
            i <= events@.len(),
            forall|a: int| 0 <= a < i ==> !is_leak(#[trigger] events@[a]@),
        decreases events@.len() - i,
    {
        let e = &events[i];
        if e.current > CURRENT_LIMIT || e.voltage > VOLTAGE_LIMIT {
            assert(is_leak(events@[i as int]@));
            assert(store@.contains_key(events@[i as int].timestamp));
            return LeakageStatus::LeakageDetected;
        }
        i = i + 1;
    }
    assert forall|k: u64| #[trigger] store@.contains_key(k) implies !is_leak(store@[k]) by {
        let a = choose|a: int| 0 <= a < events@.len() && events@[a]@ == store@[k];
        assert(!is_leak(events@[a]@));
    }
    LeakageStatus::NoLeakage
}

} // verus!
