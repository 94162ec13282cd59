//! The durable ordered store: a stable map from timestamp to encoded record.
use crate::event::{canonical, decoding_of, encoding_of, fits, CodecError, ElectricityEvent, EventView, MAX_VALUE_SIZE};
use ic_stable_structures::memory_manager::{MemoryId, MemoryManager, VirtualMemory};
use ic_stable_structures::{DefaultMemoryImpl, Memory, StableBTreeMap};
use vstd::prelude::*;

verus! {

/// The process's default memory of ic-stable-structures, held opaque: what it holds is
/// `memory_bytes`. Off wasm each value is a new memory of its own; on wasm it is the
/// canister's stable memory, which `Store::open` alone reaches.
#[verifier::external_body]
pub struct StableMemory {
    memory: DefaultMemoryImpl,
}

/// The bytes of a memory, all of its pages.
pub uninterp spec fn memory_bytes(m: StableMemory) -> Seq<u8>;

/// Relies on `DefaultMemoryImpl::default()` of ic-stable-structures: the process's
/// default memory.
#[verifier::external_body]
fn stable_memory() -> (r: StableMemory) {
    StableMemory { memory: DefaultMemoryImpl::default() }
}

/// Relies on `Memory::size`: the memory's length in pages of 65536 bytes.
#[verifier::external_body]
fn stable_pages(m: &StableMemory) -> (r: u64)
    ensures
        r as int * 65536 == memory_bytes(*m).len(),
{
    m.memory.size()
}

/// Relies on `Memory::read`: the first `len` bytes of the memory.
#[verifier::external_body]
fn stable_prefix(m: &StableMemory, len: usize) -> (r: Vec<u8>)
    requires
        len <= memory_bytes(*m).len(),
    ensures
        r@ == memory_bytes(*m).subrange(0, len as int),
{
    let mut buf = vec![0u8; len];
    m.memory.read(0, &mut buf);
    buf
}

/// Virtual memory 0 of ic-stable-structures' `MemoryManager`, held opaque: what it holds
/// is `region_bytes`. It is moved into the one map laid over it.
#[verifier::external_body]
pub struct Region {
    memory: VirtualMemory<DefaultMemoryImpl>,
}

/// The bytes of a region, all of its pages.
pub uninterp spec fn region_bytes(r: Region) -> Seq<u8>;

/// Relies on `MemoryManager::init` and `MemoryManager::get` of ic-stable-structures:
/// region 0 of a memory manager over `memory`, loaded where `memory` starts with the
/// manager's magic `MGR`, else laid out fresh. `init` asserts the layout version of a
/// loaded manager, which `requires` rules out; a manager whose bucket table was corrupted
/// by other code can still stop the process.
#[verifier::external_body]
fn region_zero(memory: StableMemory) -> (r: Region)
    requires
        manager_header_ok(memory_bytes(memory)),
{
    Region { memory: MemoryManager::init(memory.memory).get(MemoryId::new(0)) }
}

/// Relies on `Memory::size` of `VirtualMemory`: the region's length in pages of 65536
/// bytes.
#[verifier::external_body]
fn region_pages(m: &Region) -> (r: u64)
    ensures
        r as int * 65536 == region_bytes(*m).len(),
{
    m.memory.size()
}

/// Relies on `Memory::read` of `VirtualMemory`: the first `len` bytes of the region.
#[verifier::external_body]
fn region_prefix(m: &Region, len: usize) -> (r: Vec<u8>)
    requires
        len <= region_bytes(*m).len(),
    ensures
        r@ == region_bytes(*m).subrange(0, len as int),
{
    let mut buf = vec![0u8; len];
    m.memory.read(0, &mut buf);
    buf
}

/// `b` holds the three bytes `m0 m1 m2` from offset `at`.
pub open spec fn magic_at(b: Seq<u8>, at: int, m0: u8, m1: u8, m2: u8) -> bool {
    b.len() >= at + 3 && b[at] == m0 && b[at + 1] == m1 && b[at + 2] == m2
}

/// A memory that starts with the memory manager's magic `MGR` carries its layout version 1.
pub open spec fn manager_header_ok(b: Seq<u8>) -> bool {
    magic_at(b, 0, 0x4du8, 0x47u8, 0x52u8) ==> b.len() >= 4 && b[3] == 1u8
}

/// The region starts with the stable map's magic `BTR`.
pub open spec fn has_map_magic(b: Seq<u8>) -> bool {
    magic_at(b, 0, 0x42u8, 0x54u8, 0x52u8)
}

/// A region that starts with the stable map's magic carries a map layout version that the
/// map loads (1 or 2), and at offset 52 the allocator's magic `BTA` and its version 1.
pub open spec fn map_header_ok(b: Seq<u8>) -> bool {
    has_map_magic(b) ==> {
        &&& b.len() >= 56
        &&& b[3] == 1u8 || b[3] == 2u8
        &&& magic_at(b, 52, 0x42u8, 0x54u8, 0x41u8)
        &&& b[55] == 1u8
    }
}

/// Tests the first four bytes of a memory against `manager_header_ok`.
fn check_manager_header(prefix: &Vec<u8>) -> (r: bool)
    requires
        prefix@.len() == 4,
    ensures
        r == manager_header_ok(prefix@),
{
    if prefix[0] == 0x4du8 && prefix[1] == 0x47u8 && prefix[2] == 0x52u8 {
        prefix[3] == 1u8
    } else {
        true
    }
}

/// Tests the first 56 bytes of a region against `map_header_ok`.
fn check_map_header(prefix: &Vec<u8>) -> (r: bool)
    requires
        prefix@.len() == 56,
    ensures
        r == map_header_ok(prefix@),
{
    if prefix[0] == 0x42u8 && prefix[1] == 0x54u8 && prefix[2] == 0x52u8 {
        (prefix[3] == 1u8 || prefix[3] == 2u8) && prefix[52] == 0x42u8 && prefix[53] == 0x54u8
            && prefix[54] == 0x41u8 && prefix[55] == 1u8
    } else {
        true
    }
}

/// The stable map of ic-stable-structures from timestamp to encoded record, held
/// opaque: what it holds is `slots_of`, and it is reached through the functions below.
/// It owns the region it is laid over.
#[verifier::external_body]
pub struct Slots {
    map: StableBTreeMap<u64, Vec<u8>, VirtualMemory<DefaultMemoryImpl>>,
}

/// What a stable map of encoded records holds, key by key.
pub uninterp spec fn slots_of(m: Slots) -> Map<u64, Seq<u8>>;

/// Relies on `BTreeMap::new` of ic-stable-structures: a map with no entries, laid out
/// fresh over `region`.
#[verifier::external_body]
fn slots_new(region: Region) -> (r: Slots)
    ensures
        slots_of(r) =~= Map::empty(),
{
    Slots { map: StableBTreeMap::new(region.memory) }
}

/// Relies on `BTreeMap::init` of ic-stable-structures: where `region` starts with the
/// map's magic it loads that map, else it lays out an empty one. `load` asserts the map's
/// and the allocator's headers, which `requires` rules out. Nothing is known of the
/// entries that it loads; a node that other code corrupted stops the process when it is
/// read.
#[verifier::external_body]
fn slots_init(region: Region) -> (r: Slots)
    requires
        map_header_ok(region_bytes(region)),
    ensures
        !has_map_magic(region_bytes(region)) ==> slots_of(r) =~= Map::empty(),
{
    Slots { map: StableBTreeMap::init(region.memory) }
}

/// Relies on `BTreeMap::clear_new` of ic-stable-structures: removes every entry.
#[verifier::external_body]
fn slots_clear(m: &mut Slots)
    ensures
        slots_of(*final(m)) =~= Map::empty(),
{
    m.map.clear_new()
}

/// Relies on `BTreeMap::insert` of ic-stable-structures: sets the value of `key`,
/// replacing any earlier one.
#[verifier::external_body]
fn slots_insert(m: &mut Slots, key: u64, value: Vec<u8>)
    ensures
        slots_of(*final(m)) == slots_of(*old(m)).insert(key, value@),
{
    m.map.insert(key, value);
}

/// Relies on `BTreeMap::iter` of ic-stable-structures: every entry once, in ascending
/// order of key.
#[verifier::external_body]
fn slots_entries(m: &Slots) -> (r: Vec<(u64, Vec<u8>)>)
    ensures
        forall|i: int, j: int| 0 <= i < j < r@.len() ==> r@[i].0 < r@[j].0,
        forall|i: int|
            0 <= i < r@.len() ==> #[trigger] slots_of(*m).contains_key(r@[i].0) && slots_of(
                *m,
            )[r@[i].0] == r@[i].1@,
        forall|k: u64|
            #[trigger] slots_of(*m).contains_key(k) ==> exists|i: int|
                0 <= i < r@.len() && r@[i].0 == k,
{
    m.map.iter().collect()
}

/// Each entry is the canonical encoding of a record whose timestamp is its key, and its
/// bytes fit the bound.
pub open spec fn valid_slots(s: Map<u64, Seq<u8>>) -> bool {
    forall|k: u64| #[trigger]
        s.contains_key(k) ==> {
            &&& canonical(s[k])
            &&& decoding_of(s[k])->Some_0.timestamp == k
            &&& s[k].len() <= MAX_VALUE_SIZE
        }
}

/// The records that the entries encode, by key.
pub open spec fn decoded(s: Map<u64, Seq<u8>>) -> Map<u64, EventView> {
    Map::new(|k: u64| s.contains_key(k), |k: u64| decoding_of(s[k])->Some_0)
}

/// `s` lists the records of `m` by ascending timestamp, each once.
pub open spec fn is_listing(s: Seq<EventView>, m: Map<u64, EventView>) -> bool {
    &&& forall|i: int, j: int| 0 <= i < j < s.len() ==> s[i].timestamp < s[j].timestamp
    &&& forall|i: int|
        0 <= i < s.len() ==> #[trigger] m.contains_key(s[i].timestamp) && m[s[i].timestamp]
            == s[i]
    &&& forall|k: u64| #[trigger] m.contains_key(k) ==> exists|i: int| 0 <= i < s.len() && s[i].timestamp == k
}

/// The records that `batch` leaves when each is stored under its timestamp in turn:
/// of records that share a timestamp, the last one.
pub open spec fn batch_map(batch: Seq<EventView>) -> Map<u64, EventView>
    decreases batch.len(),
{
    if batch.len() == 0 {
        Map::empty()
    } else {
        batch_map(batch.drop_last()).insert(batch.last().timestamp, batch.last())
    }
}

/// A timestamp is a key of `batch_map(batch)` exactly when some record of `batch` has it,
/// and the record filed there is the last of `batch` with that timestamp.
proof fn lemma_batch_map(batch: Seq<EventView>, t: u64)
    ensures
        batch_map(batch).contains_key(t) <==> exists|j: int|
            0 <= j < batch.len() && #[trigger] batch[j].timestamp == t,
        batch_map(batch).contains_key(t) ==> exists|j: int|
            0 <= j < batch.len() && #[trigger] batch[j] == batch_map(batch)[t] && forall|j2: int|
                j < j2 < batch.len() ==> #[trigger] batch[j2].timestamp != t,
    decreases batch.len(),
{
    if batch.len() > 0 {
        let init = batch.drop_last();
        lemma_batch_map(init, t);
        let n = batch.len() - 1;
        if batch.last().timestamp == t {
            assert(batch[n] == batch_map(batch)[t]);
        } else if batch_map(batch).contains_key(t) {
            let j = choose|j: int|
                0 <= j < init.len() && #[trigger] init[j] == batch_map(init)[t] && forall|j2: int|
                    j < j2 < init.len() ==> #[trigger] init[j2].timestamp != t;
            assert(batch[j] == init[j]);
            assert forall|j2: int| j < j2 < batch.len() implies #[trigger] batch[j2].timestamp
                != t by {
                if j2 < n {
                    assert(batch[j2] == init[j2]);
                }
            }
        }
        if exists|j: int| 0 <= j < batch.len() && #[trigger] batch[j].timestamp == t {
            let j = choose|j: int| 0 <= j < batch.len() && #[trigger] batch[j].timestamp == t;
            if j < n {
                assert(init[j].timestamp == t);
            }
        }
        if exists|j: int| 0 <= j < init.len() && #[trigger] init[j].timestamp == t {
            let j = choose|j: int| 0 <= j < init.len() && #[trigger] init[j].timestamp == t;
            assert(batch[j].timestamp == t);
        }
    }
}

/// Listing the store after it was replaced by `batch` gives, for each timestamp that
/// occurs in `batch`, the last record of `batch` with that timestamp, and nothing else,
/// by ascending timestamp, whatever the order of `batch`.
pub proof fn lemma_replace_then_list(batch: Seq<EventView>, s: Seq<EventView>)
    requires
        is_listing(s, batch_map(batch)),
    ensures
        forall|i: int, j: int| 0 <= i < j < s.len() ==> s[i].timestamp < s[j].timestamp,
        forall|i: int|
            0 <= i < s.len() ==> exists|j: int|
                0 <= j < batch.len() && #[trigger] batch[j] == #[trigger] s[i] && forall|j2: int|
                    j < j2 < batch.len() ==> #[trigger] batch[j2].timestamp != s[i].timestamp,
        forall|j: int|
            0 <= j < batch.len() ==> exists|i: int|
                0 <= i < s.len() && #[trigger] s[i].timestamp == #[trigger] batch[j].timestamp,
{
    assert forall|i: int| 0 <= i < s.len() implies exists|j: int|
        0 <= j < batch.len() && #[trigger] batch[j] == #[trigger] s[i] && forall|j2: int|
            j < j2 < batch.len() ==> #[trigger] batch[j2].timestamp != s[i].timestamp by {
        lemma_batch_map(batch, s[i].timestamp);
        assert(batch_map(batch).contains_key(s[i].timestamp));
    }
    assert forall|j: int| 0 <= j < batch.len() implies exists|i: int|
        0 <= i < s.len() && #[trigger] s[i].timestamp == #[trigger] batch[j].timestamp by {
        lemma_batch_map(batch, batch[j].timestamp);
        assert(batch_map(batch).contains_key(batch[j].timestamp));
    }
}

/// Every record of `s` has an encoding that fits the bound.
pub open spec fn all_fit(s: Seq<EventView>) -> bool {
    forall|i: int| 0 <= i < s.len() ==> #[trigger] fits(s[i])
}

/// The views of a sequence of records.
pub open spec fn views(s: Seq<ElectricityEvent>) -> Seq<EventView> {
    s.map_values(|e: ElectricityEvent| e@)
}

/// Persistent map from timestamp to record, over region 0 of the process's stable memory.
pub struct Store {
    map: Slots,
}

impl View for Store {
    type V = Map<u64, EventView>;

    closed spec fn view(&self) -> Map<u64, EventView> {
        decoded(slots_of(self.map))
    }
}

impl Store {
    /// Each stored entry decodes to a record whose timestamp is its key, within the bound.
    pub closed spec fn wf(&self) -> bool {
        valid_slots(slots_of(self.map))
    }

    /// Every record in the store, by ascending timestamp.
    pub fn get_all(&self) -> (r: Vec<ElectricityEvent>)
        requires
            self.wf(),
        ensures
            is_listing(views(r@), self@),
    {
        let entries = slots_entries(&self.map);
        let mut out: Vec<ElectricityEvent> = Vec::new();
        let mut i: usize = 0;
        while i < entries.len()
            invariant
                self.wf(),
                i <= entries@.len(),
                out@.len() == i,
                forall|a: int, b: int|
                    0 <= a < b < entries@.len() ==> entries@[a].0 < entries@[b].0,
                forall|a: int|
                    0 <= a < entries@.len() ==> #[trigger] slots_of(self.map).contains_key(
                        entries@[a].0,
                    ) && slots_of(self.map)[entries@[a].0] == entries@[a].1@,
                forall|a: int| 0 <= a < i ==> #[trigger] out@[a]@ == self@[entries@[a].0],
                forall|a: int| 0 <= a < i ==> #[trigger] out@[a].timestamp == entries@[a].0,
            decreases entries@.len() - i,
        {
            let k = entries[i].0;
            assert(slots_of(self.map).contains_key(entries@[i as int].0));
            match ElectricityEvent::from_bytes(&entries[i].1) {
                Ok(e) => {
                    out.push(e);
                },
                Err(_) => {
                    assert(false);
                },
            }
            i = i + 1;
        }
        proof {
            let s = views(out@);
            assert forall|a: int| 0 <= a < s.len() implies #[trigger] s[a].timestamp
                == entries@[a].0 by {}
            assert forall|k: u64| #[trigger] self@.contains_key(k) implies exists|a: int|
                0 <= a < s.len() && s[a].timestamp == k by {
                assert(slots_of(self.map).contains_key(k));
                let a = choose|a: int| 0 <= a < entries@.len() && entries@[a].0 == k;
                assert(s[a].timestamp == k);
            }
        }
        out
    }

    /// Every record in the store, for scans whose outcome does not depend on order: each
    /// element is a stored record, and each stored record is an element.
    pub fn values(&self) -> (r: Vec<ElectricityEvent>)
        requires
            self.wf(),
        ensures
            forall|i: int|
                0 <= i < r@.len() ==> #[trigger] self@.contains_key(r@[i].timestamp)
                    && self@[r@[i].timestamp] == r@[i]@,
            forall|k: u64|
                #[trigger] self@.contains_key(k) ==> exists|i: int|
                    0 <= i < r@.len() && r@[i]@ == self@[k],
    {
        let r = self.get_all();
        proof {
            let s = views(r@);
            assert forall|i: int| 0 <= i < r@.len() implies #[trigger] self@.contains_key(
                r@[i].timestamp,
            ) && self@[r@[i].timestamp] == r@[i]@ by {
                assert(s[i] == r@[i]@);
                assert(self@.contains_key(s[i].timestamp));
            }
            assert forall|k: u64| #[trigger] self@.contains_key(k) implies exists|i: int|
                0 <= i < r@.len() && r@[i]@ == self@[k] by {
                let i = choose|i: int| 0 <= i < s.len() && s[i].timestamp == k;
                assert(s[i] == r@[i]@);
            }
        }
        r
    }

    /// Loads the store that region 0 of the process's stable memory holds, or lays out an
    /// empty one where it holds none. This is the one way to that memory: on wasm a
    /// process calls it once and keeps the store; off wasm each call has a new memory of
    /// its own. Fails with `DecodingError` where the memory holds a memory manager of an
    /// unknown layout, or where `open_in` fails.
    pub fn open() -> (r: Result<Store, CodecError>)
        ensures
            r is Ok ==> r->Ok_0.wf(),
            r is Err ==> r->Err_0 == CodecError::DecodingError,
    {
        let memory = stable_memory();
        if stable_pages(&memory) > 0 {
            let prefix = stable_prefix(&memory, 4);
            if !check_manager_header(&prefix) {
                return Err(CodecError::DecodingError);
            }
        }
        Store::open_in(region_zero(memory))
    }

    /// Loads the store that `region` holds, or lays out an empty one where it holds no
    /// stable map. Fails with `DecodingError` where the map's or the allocator's header is
    /// of an unknown layout, or, as `from_slots` says, where an entry is not a record.
    pub fn open_in(region: Region) -> (r: Result<Store, CodecError>)
        ensures
            !map_header_ok(region_bytes(region)) ==> r == Err::<Store, CodecError>(
                CodecError::DecodingError,
            ),
            !has_map_magic(region_bytes(region)) ==> r is Ok && r->Ok_0@ =~= Map::empty(),
            r is Ok ==> r->Ok_0.wf(),
            r is Err ==> r->Err_0 == CodecError::DecodingError,
    {
        if region_pages(&region) > 0 {
            let prefix = region_prefix(&region, 56);
            if !check_map_header(&prefix) {
                return Err(CodecError::DecodingError);
            }
        }
        Store::from_slots(slots_init(region))
    }

    /// A store over a loaded map, where every entry is the encoding, within the bound, of a
    /// record filed under its own timestamp; else `DecodingError`.
    pub fn from_slots(map: Slots) -> (r: Result<Store, CodecError>)
        ensures
            r is Ok <==> valid_slots(slots_of(map)),
            r is Ok ==> r->Ok_0.wf(),
            r is Ok ==> r->Ok_0@ == decoded(slots_of(map)),
            r is Err ==> r->Err_0 == CodecError::DecodingError,
    {
        let entries = slots_entries(&map);
        let mut i: usize = 0;
        while i < entries.len()
            invariant
                i <= entries@.len(),
                forall|a: int|
                    0 <= a < entries@.len() ==> #[trigger] slots_of(map).contains_key(
                        entries@[a].0,
                    ) && slots_of(map)[entries@[a].0] == entries@[a].1@,
                forall|a: int|
                    0 <= a < i ==> {
                        &&& canonical(#[trigger] entries@[a].1@)
                        &&& decoding_of(entries@[a].1@)->Some_0.timestamp == entries@[a].0
                        &&& entries@[a].1@.len() <= MAX_VALUE_SIZE
                    },
            decreases entries@.len() - i,
        {
            let ghost k = entries@[i as int].0;
            assert(slots_of(map).contains_key(k));
            if entries[i].1.len() > MAX_VALUE_SIZE {
                return Err(CodecError::DecodingError);
            }
            match ElectricityEvent::from_bytes(&entries[i].1) {
                Ok(e) => {
                    if e.timestamp != entries[i].0 {
                        return Err(CodecError::DecodingError);
                    }
                },
                Err(err) => {
                    return Err(err);
                },
            }
            i = i + 1;
        }
        let store = Store { map };
        assert forall|k: u64| #[trigger] slots_of(store.map).contains_key(k) implies {
            &&& canonical(slots_of(store.map)[k])
            &&& decoding_of(slots_of(store.map)[k])->Some_0.timestamp == k
            &&& slots_of(store.map)[k].len() <= MAX_VALUE_SIZE
        } by {
            let a = choose|a: int| 0 <= a < entries@.len() && entries@[a].0 == k;
            assert(canonical(entries@[a].1@));
        }
        Ok(store)
    }

    /// Removes every record, then stores each record of `batch` under its timestamp, in
    /// order, so that of records sharing a timestamp the last one stays. Where a record of
    /// `batch` has no encoding within the bound, fails with `EncodingError` and leaves the
    /// store as it was.
    pub fn clear_and_replace(&mut self, batch: &Vec<ElectricityEvent>) -> (r: Result<(), CodecError>)
        requires
            old(self).wf(),
        ensures
            final(self).wf(),
            r is Ok <==> all_fit(views(batch@)),
            r is Ok ==> final(self)@ == batch_map(views(batch@)),
            r is Err ==> final(self)@ == old(self)@,
            r is Err ==> r->Err_0 == CodecError::EncodingError,
    {
        let ghost vb = views(batch@);
        let mut encoded: Vec<Vec<u8>> = Vec::new();
        let mut i: usize = 0;
        while i < batch.len()
            invariant
                self.wf(),
                self@ == old(self)@,
                vb == views(batch@),
                i <= batch@.len(),
                encoded@.len() == i,
                forall|a: int| 0 <= a < i ==> #[trigger] fits(vb[a]),
                forall|a: int|
                    0 <= a < i ==> decoding_of(#[trigger] encoded@[a]@) == Some(vb[a]),
                forall|a: int| 0 <= a < i ==> encoding_of(vb[a]) == Some(#[trigger] encoded@[a]@),
                forall|a: int| 0 <= a < i ==> (#[trigger] encoded@[a]@).len() <= MAX_VALUE_SIZE,
            decreases batch@.len() - i,
        {
            match batch[i].to_bytes() {
                Ok(b) => {
                    encoded.push(b);
                },
                Err(e) => {
                    assert(!fits(vb[i as int]));
                    return Err(e);
                },
            }
            i = i + 1;
        }
        slots_clear(&mut self.map);
        assert(batch_map(vb.take(0)) =~= Map::empty());
        assert(self@ =~= batch_map(vb.take(0)));
        let mut j: usize = 0;
        while j < batch.len()
            invariant
                vb == views(batch@),
                j <= batch@.len(),
                encoded@.len() == batch@.len(),
                forall|a: int|
                    0 <= a < batch@.len() ==> decoding_of(#[trigger] encoded@[a]@) == Some(
                        vb[a],
                    ),
                forall|a: int|
                    0 <= a < batch@.len() ==> encoding_of(vb[a]) == Some(#[trigger] encoded@[a]@),
                forall|a: int|
                    0 <= a < batch@.len() ==> (#[trigger] encoded@[a]@).len() <= MAX_VALUE_SIZE,
                self.wf(),
                self@ == batch_map(vb.take(j as int)),
            decreases batch@.len() - j,
        {
            let ghost before = self@;
            let b = encoded[j].clone();
            slots_insert(&mut self.map, batch[j].timestamp, b);
            assert(vb.take(j + 1).drop_last() =~= vb.take(j as int));
            assert(vb[j as int] == batch@[j as int]@);
            assert(self@ =~= before.insert(batch@[j as int].timestamp, vb[j as int]));
            j = j + 1;
        }
        assert(vb.take(batch@.len() as int) =~= vb);
        Ok(())
    }
}

} // verus!
