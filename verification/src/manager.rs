//! The broker itself: the serial request dispatcher, the four-level
//! identifier-and-cache graph, the per-device allowed-services registry, the
//! adapter gate, and the test harness that rebuilds the adapter from a named
//! mock topology.

use vstd::prelude::*;
use crate::adapter::{BluetoothAdapter, BluetoothDevice, GattStore};
use crate::messages::{BluetoothError, BluetoothResult};
use crate::scanfilter::{BluetoothScanfilter, BluetoothScanfilterSequence};
use crate::strmap::{StrMap, StrSet};
use crate::strutil::{spec_uuid_eq, string_starts_with, uuid_eq, vec_contains_uuid};
use rand::Rng;

verus! {

/// Whether the device advertises the service UUID `u`; UUIDs compare equal
/// up to ASCII case.
pub open spec fn spec_device_advertises(d: &BluetoothDevice, u: Seq<char>) -> bool {
    exists|i: int| 0 <= i < d.uuids@.len() && spec_uuid_eq((#[trigger] d.uuids@[i])@, u)
}

/// Whether one filter matches a device: the filter is non-empty; its name,
/// when set, equals the device name; its name prefix, when set, is a prefix
/// of the device name; and every required service UUID appears among the
/// device's advertised UUIDs.
pub open spec fn spec_matches_filter(d: &BluetoothDevice, f: &BluetoothScanfilter) -> bool {
    &&& !f.spec_is_empty_or_invalid()
    &&& (f.spec_name().len() > 0 ==> (d.name matches Some(n) && n@ == f.spec_name()))
    &&& (f.spec_name_prefix().len() > 0 ==> (d.name matches Some(n)
        && f.spec_name_prefix().is_prefix_of(n@)))
    &&& forall|j: int|
        0 <= j < f.spec_services().len() ==> spec_device_advertises(
            d,
            #[trigger] f.spec_services()[j],
        )
}

/// Whether a sequence of filters matches a device: the sequence is
/// non-empty, no filter in it is empty, and some filter matches.
pub open spec fn spec_matches_filter_seq(d: &BluetoothDevice, fs: Seq<BluetoothScanfilter>) -> bool {
    &&& fs.len() > 0
    &&& forall|i: int| 0 <= i < fs.len() ==> !(#[trigger] fs[i]).spec_is_empty_or_invalid()
    &&& exists|i: int| 0 <= i < fs.len() && spec_matches_filter(d, &fs[i])
}

/// Whether a filter sequence matches a device: no filter is empty, the
/// sequence is non-empty, and some filter matches.
pub open spec fn spec_matches_filters(d: &BluetoothDevice, fs: &BluetoothScanfilterSequence) -> bool {
    spec_matches_filter_seq(d, fs.spec_filters())
}

#[verifier::loop_isolation(false)]
pub fn matches_filter(device: &BluetoothDevice, filter: &BluetoothScanfilter) -> (r: bool)
    ensures
        r == spec_matches_filter(device, filter),
{
    if filter.is_empty_or_invalid() {
        return false;
    }
    if !filter.get_name().as_str().is_empty() {
        match &device.name {
            Some(n) => {
                if !(*n == *filter.get_name()) {
                    return false;
                }
            },
            None => {
                return false;
            },
        }
    }
    if !filter.get_name_prefix().as_str().is_empty() {
        match &device.name {
            Some(n) => {
                if !string_starts_with(n, filter.get_name_prefix()) {
                    return false;
                }
            },
            None => {
                return false;
            },
        }
    }
    let services = filter.get_services();
    let ns = services.len();
    let mut j: usize = 0;
    while j < ns
        invariant
            ns == services@.len(),
            services@.len() == filter.spec_services().len(),
            forall|j2: int|
                0 <= j2 < ns ==> (#[trigger] services@[j2])@ == filter.spec_services()[j2],
            0 <= j <= ns,
            forall|j2: int|
                0 <= j2 < j ==> spec_device_advertises(
                    device,
                    #[trigger] filter.spec_services()[j2],
                ),
        decreases ns - j,
    {
        if !vec_contains_uuid(&device.uuids, &services[j]) {
            proof {
                assert(!spec_device_advertises(device, filter.spec_services()[j as int]));
            }
            return false;
        }
        proof {
            assert(spec_device_advertises(device, filter.spec_services()[j as int]));
        }
        j = j + 1;
    }
    true
}

#[verifier::loop_isolation(false)]
pub fn matches_filters(device: &BluetoothDevice, filters: &BluetoothScanfilterSequence) -> (r: bool)
    ensures
        r == spec_matches_filters(device, filters),
{
    if filters.has_empty_or_invalid_filter() {
        return false;
    }
    let n = filters.len();
    let mut i: usize = 0;
    while i < n
        invariant
            n == filters.spec_filters().len(),
            0 <= i <= n,
            forall|j: int|
                0 <= j < i ==> !spec_matches_filter(device, &filters.spec_filters()[j]),
        decreases n - i,
    {
        if matches_filter(device, filters.filter_at(i)) {
            return true;
        }
        i = i + 1;
    }
    false
}

/// Relies on `rand::Rng::gen::<u32>` on the thread-local generator: a fresh
/// random 32-bit value. Nothing can be promised of its value.
#[verifier::external_body]
fn random_u32() -> u32 {
    rand::thread_rng().gen::<u32>()
}

/// Whether `x` is the store index of some cached device.
pub open spec fn spec_is_cached_device_index(m: &BluetoothManager, x: usize) -> bool {
    exists|id: Seq<char>|
        #[trigger] m.cached_devices@.dom().contains(id) && m.cached_devices@[id] == x
}

pub struct BluetoothManager {
    /// The driver-side object heap; outlives adapter sessions.
    pub store: GattStore,
    pub adapter: Option<BluetoothAdapter>,
    pub address_to_id: StrMap<String>,
    pub service_to_device: StrMap<String>,
    pub characteristic_to_service: StrMap<String>,
    pub descriptor_to_characteristic: StrMap<String>,
    pub cached_devices: StrMap<usize>,
    pub cached_services: StrMap<usize>,
    pub cached_characteristics: StrMap<usize>,
    pub cached_descriptors: StrMap<usize>,
    /// Per-device set of service UUIDs the origin has been granted.
    pub allowed_services: StrMap<StrSet>,
    /// Set by the first Test request; affects adapter-presence rejection.
    pub testing: bool,
}

impl BluetoothManager {
    /// Well-formedness of the whole broker state:
    /// - the store and the adapter session are internally consistent;
    /// - every cached index lies in the store, and the cache key is the
    ///   record's driver-supplied id (services, characteristics, descriptors);
    /// - every cached non-root identifier has a parent pointer that resolves
    ///   to a cached parent identifier;
    /// - the address-to-id map is injective and its ids are cached devices.
    pub open spec fn wf(&self) -> bool {
        &&& self.store.wf()
        &&& (self.adapter matches Some(a) ==> a.wf_in(&self.store))
        &&& self.address_to_id.wf()
        &&& self.service_to_device.wf()
        &&& self.characteristic_to_service.wf()
        &&& self.descriptor_to_characteristic.wf()
        &&& self.cached_devices.wf()
        &&& self.cached_services.wf()
        &&& self.cached_characteristics.wf()
        &&& self.cached_descriptors.wf()
        &&& self.allowed_services.wf()
        &&& forall|k: Seq<char>|
            #[trigger] self.allowed_services@.dom().contains(k) ==> self.allowed_services@[k].wf()
                && self.cached_devices@.dom().contains(k)
        &&& forall|id: Seq<char>|
            #[trigger] self.cached_devices@.dom().contains(id) ==> self.cached_devices@[id]
                < self.store.devices@.len()
        &&& forall|id: Seq<char>|
            #[trigger] self.cached_services@.dom().contains(id) ==> self.cached_services@[id]
                < self.store.services@.len() && self.store.services@[self.cached_services@[id] as int].id@
                == id
        &&& forall|id: Seq<char>|
            #[trigger] self.cached_characteristics@.dom().contains(id)
                ==> self.cached_characteristics@[id] < self.store.characteristics@.len()
                && self.store.characteristics@[self.cached_characteristics@[id] as int].id@ == id
        &&& forall|id: Seq<char>|
            #[trigger] self.cached_descriptors@.dom().contains(id) ==> self.cached_descriptors@[id]
                < self.store.descriptors@.len()
                && self.store.descriptors@[self.cached_descriptors@[id] as int].id@ == id
        &&& forall|a: Seq<char>|
            #[trigger] self.address_to_id@.dom().contains(a) ==> self.cached_devices@.dom().contains(
                self.address_to_id@[a]@,
            )
        &&& forall|id: Seq<char>|
            #[trigger] self.cached_devices@.dom().contains(id) ==> self.address_to_id@.dom().contains(
                self.store.devices@[self.cached_devices@[id] as int].address@,
            ) && self.address_to_id@[self.store.devices@[self.cached_devices@[id] as int].address@]@
                == id
        &&& forall|a1: Seq<char>, a2: Seq<char>|
            #[trigger] self.address_to_id@.dom().contains(a1)
                && #[trigger] self.address_to_id@.dom().contains(a2) && a1 != a2
                ==> self.address_to_id@[a1]@ != self.address_to_id@[a2]@
        &&& forall|sid: Seq<char>|
            #[trigger] self.cached_services@.dom().contains(sid)
                ==> self.service_to_device@.dom().contains(sid)
                && self.cached_devices@.dom().contains(self.service_to_device@[sid]@)
        &&& forall|cid: Seq<char>|
            #[trigger] self.cached_characteristics@.dom().contains(cid)
                ==> self.characteristic_to_service@.dom().contains(cid)
                && self.cached_services@.dom().contains(self.characteristic_to_service@[cid]@)
        &&& forall|did: Seq<char>|
            #[trigger] self.cached_descriptors@.dom().contains(did)
                ==> self.descriptor_to_characteristic@.dom().contains(did)
                && self.cached_characteristics@.dom().contains(
                self.descriptor_to_characteristic@[did]@,
            )
    }

    /// What every handler leaves intact: the store only grows, cache
    /// bindings are never removed or rebound, and no device's allowed-services
    /// set ever shrinks.
    pub open spec fn spec_state_monotone(pre: &BluetoothManager, post: &BluetoothManager) -> bool {
        &&& post.store.grows_from(&pre.store)
        &&& (pre.testing ==> post.testing)
        &&& forall|a: Seq<char>|
            #[trigger] pre.address_to_id@.dom().contains(a) ==> post.address_to_id@.dom().contains(
                a,
            ) && post.address_to_id@[a]@ == pre.address_to_id@[a]@
        &&& forall|id: Seq<char>|
            #[trigger] pre.cached_devices@.dom().contains(id) ==> post.cached_devices@.dom().contains(
                id,
            ) && post.cached_devices@[id] == pre.cached_devices@[id]
        &&& forall|id: Seq<char>|
            #[trigger] pre.cached_services@.dom().contains(id)
                ==> post.cached_services@.dom().contains(id)
        &&& forall|id: Seq<char>|
            #[trigger] pre.cached_characteristics@.dom().contains(id)
                ==> post.cached_characteristics@.dom().contains(id)
        &&& forall|id: Seq<char>|
            #[trigger] pre.cached_descriptors@.dom().contains(id)
                ==> post.cached_descriptors@.dom().contains(id)
        &&& forall|k: Seq<char>|
            #[trigger] pre.allowed_services@.dom().contains(k)
                ==> post.allowed_services@.dom().contains(k)
                && pre.allowed_services@[k]@.subset_of(post.allowed_services@[k]@)
    }

    /// Existing allowed-services entries are kept with their exact value
    /// (discovery only adds empty entries for newly seen devices).
    pub open spec fn spec_allowed_preserved(pre: &BluetoothManager, post: &BluetoothManager) -> bool {
        forall|k: Seq<char>|
            #[trigger] pre.allowed_services@.dom().contains(k)
                ==> post.allowed_services@.dom().contains(k) && post.allowed_services@[k]
                == pre.allowed_services@[k]
    }

    /// The adapter is treated as absent: none is held, or, in test mode, the
    /// held one reports `present = false`.
    pub open spec fn spec_adapter_absent(&self) -> bool {
        ||| self.adapter is None
        ||| (self.testing && !self.adapter->0.present)
    }

    /// A GATT-touching handler may proceed: an adapter is there and powered.
    pub open spec fn spec_gate_ready(&self) -> bool {
        &&& !self.spec_adapter_absent()
        &&& self.adapter->0.powered
    }

    pub fn new(adapter: Option<BluetoothAdapter>) -> (r: BluetoothManager)
        requires
            adapter matches Some(a) ==> a.devices@.len() == 0,
        ensures
            r.wf(),
            r.adapter == adapter,
            !r.testing,
            r.cached_devices@ == Map::<Seq<char>, usize>::empty(),
            r.cached_services@ == Map::<Seq<char>, usize>::empty(),
            r.cached_characteristics@ == Map::<Seq<char>, usize>::empty(),
            r.cached_descriptors@ == Map::<Seq<char>, usize>::empty(),
            r.address_to_id@ == Map::<Seq<char>, String>::empty(),
            r.allowed_services@ == Map::<Seq<char>, StrSet>::empty(),
    {
        BluetoothManager {
            store: GattStore::new(),
            adapter,
            address_to_id: StrMap::new(),
            service_to_device: StrMap::new(),
            characteristic_to_service: StrMap::new(),
            descriptor_to_characteristic: StrMap::new(),
            cached_devices: StrMap::new(),
            cached_services: StrMap::new(),
            cached_characteristics: StrMap::new(),
            cached_descriptors: StrMap::new(),
            allowed_services: StrMap::new(),
            testing: false,
        }
    }

    /// The adapter gate run at the top of every GATT-touching handler: an
    /// absent adapter is rejected with `AdapterError`, an unpowered one with
    /// `AdapterNotPowered`. Re-initialization against a host stack has no
    /// counterpart in this model, so absence persists until a Test request
    /// installs an adapter.
    fn adapter_gate(&self) -> (r: Result<(), BluetoothError>)
        ensures
            r matches Ok(()) <==> self.spec_gate_ready(),
            self.spec_adapter_absent() <==> (r matches Err(e)
                && e matches BluetoothError::AdapterError),
            (!self.spec_adapter_absent() && !self.adapter->0.powered) <==> (r matches Err(e)
                && e matches BluetoothError::AdapterNotPowered),
    {
        match &self.adapter {
            None => Err(BluetoothError::AdapterError),
            Some(a) => {
                if self.testing && !a.present {
                    Err(BluetoothError::AdapterError)
                } else if !a.powered {
                    Err(BluetoothError::AdapterNotPowered)
                } else {
                    Ok(())
                }
            },
        }
    }

    /// Mints a device id from the random source, re-rolling until it collides
    /// with no cached device id.
    #[verifier::loop_isolation(false)]
    pub fn generate_device_id(&self) -> (r: String)
        requires
            self.wf(),
        ensures
            !self.cached_devices@.dom().contains(r@),
    {
        let mut attempts: usize = 0;
        while attempts < 32
            invariant
                self.wf(),
            decreases 32 - attempts,
        {
            let id = random_u32().to_string();
            if !self.cached_devices.contains_key(&id) {
                return id;
            }
            attempts = attempts + 1;
        }
        // The random space dwarfs the cache, so reaching this point takes 32
        // collisions in a row; mint an id longer than every cached id, which
        // cannot collide with any of them.
        let bound = self.cached_devices.max_key_len();
        let mut id = String::new();
        while id.as_str().unicode_len() <= bound
            invariant
                id@.len() <= bound + 1,
            decreases bound + 1 - id@.len(),
        {
            proof {
                reveal_strlit("x");
            }
            id.append("x");
        }
        proof {
            assert(id@.len() > bound);
            assert(!self.cached_devices@.dom().contains(id@));
        }
        id
    }

    /// Registers every device the adapter session exposes whose address is
    /// not yet known: a fresh id is minted and bound to the address, the
    /// device is cached under that id, and its allowed-services entry starts
    /// empty. Returns every cached device index.
    fn get_and_cache_devices(&mut self) -> (r: Vec<usize>)
        requires
            old(self).wf(),
            old(self).adapter is Some,
        ensures
            final(self).wf(),
            BluetoothManager::spec_state_monotone(old(self), final(self)),
            BluetoothManager::spec_allowed_preserved(old(self), final(self)),
            forall|k: Seq<char>|
                #[trigger] final(self).allowed_services@.dom().contains(k) && !old(
                    self,
                ).allowed_services@.dom().contains(k) ==> final(self).allowed_services@[k]@
                    == Set::<Seq<char>>::empty(),
            final(self).store == old(self).store,
            final(self).adapter == old(self).adapter,
            final(self).testing == old(self).testing,
            final(self).cached_services == old(self).cached_services,
            final(self).cached_characteristics == old(self).cached_characteristics,
            final(self).cached_descriptors == old(self).cached_descriptors,
            final(self).service_to_device == old(self).service_to_device,
            final(self).characteristic_to_service == old(self).characteristic_to_service,
            final(self).descriptor_to_characteristic == old(self).descriptor_to_characteristic,
            forall|i: int|
                0 <= i < old(self).adapter->0.devices@.len()
                    ==> final(self).address_to_id@.dom().contains(
                    old(self).store.devices@[#[trigger] old(self).adapter->0.devices@[i] as int].address@,
                ),
            forall|k: int|
                0 <= k < r@.len() ==> spec_is_cached_device_index(final(self), #[trigger] r@[k]),
            forall|id: Seq<char>|
                final(self).cached_devices@.dom().contains(id) ==> exists|k: int|
                    0 <= k < r@.len() && #[trigger] r@[k] == final(self).cached_devices@[id],
    {
        let adapter_devices: Vec<usize> = match &self.adapter {
            Some(a) => a.devices.clone(),
            None => Vec::new(),
        };
        let n = adapter_devices.len();
        let ghost pre = *self;
        let mut i: usize = 0;
        while i < n
            invariant
                self.wf(),
                self.adapter is Some,
                pre.adapter is Some,
                n == adapter_devices@.len(),
                adapter_devices@ == pre.adapter->0.devices@,
                0 <= i <= n,
                BluetoothManager::spec_state_monotone(&pre, self),
                BluetoothManager::spec_allowed_preserved(&pre, self),
                forall|k: Seq<char>|
                    #[trigger] self.allowed_services@.dom().contains(k)
                        && !pre.allowed_services@.dom().contains(k) ==> self.allowed_services@[k]@
                        == Set::<Seq<char>>::empty(),
                self.store == pre.store,
                self.adapter == pre.adapter,
                self.testing == pre.testing,
                self.cached_services == pre.cached_services,
                self.cached_characteristics == pre.cached_characteristics,
                self.cached_descriptors == pre.cached_descriptors,
                self.service_to_device == pre.service_to_device,
                self.characteristic_to_service == pre.characteristic_to_service,
                self.descriptor_to_characteristic == pre.descriptor_to_characteristic,
                forall|j: int|
                    0 <= j < i ==> self.address_to_id@.dom().contains(
                        self.store.devices@[#[trigger] adapter_devices@[j] as int].address@,
                    ),
            decreases n - i,
        {
            let idx = adapter_devices[i];
            proof {
                assert(pre.adapter->0.wf_in(&pre.store));
                assert(pre.adapter->0.devices@[i as int] < pre.store.devices@.len());
            }
            let address = self.store.devices[idx].address.clone();
            if !self.address_to_id.contains_key(&address) {
                let ghost before = *self;
                let generated_id = self.generate_device_id();
                self.address_to_id.insert(address, generated_id.clone());
                self.cached_devices.insert(generated_id.clone(), idx);
                self.allowed_services.insert(generated_id, StrSet::new());
                proof {
                    assert forall|k: Seq<char>|
                        self.allowed_services@.dom().contains(k) implies (
                    #[trigger] self.allowed_services@[k]).wf() by {
                    }
                    assert forall|a1: Seq<char>, a2: Seq<char>|
                        self.address_to_id@.dom().contains(a1) && self.address_to_id@.dom().contains(
                            a2,
                        ) && a1 != a2 implies (#[trigger] self.address_to_id@[a1])@ != (
                    #[trigger] self.address_to_id@[a2])@ by {
                        if before.address_to_id@.dom().contains(a1) && before.address_to_id@.dom().contains(a2) {
                        } else if before.address_to_id@.dom().contains(a1) {
                            assert(before.cached_devices@.dom().contains(self.address_to_id@[a1]@));
                        } else if before.address_to_id@.dom().contains(a2) {
                            assert(before.cached_devices@.dom().contains(self.address_to_id@[a2]@));
                        }
                    }
                    assert forall|k: Seq<char>|
                        pre.allowed_services@.dom().contains(k) implies self.allowed_services@.dom().contains(
                            k,
                        ) && (#[trigger] pre.allowed_services@[k])@.subset_of(
                            self.allowed_services@[k]@,
                        ) by {
                        assert(before.allowed_services@.dom().contains(k));
                        assert(before.cached_devices@.dom().contains(k));
                    }
                }
            }
            i = i + 1;
        }
        let r = self.cached_devices.values();
        proof {
            self.cached_devices.lemma_pairs_in_map();
            assert forall|k: int| 0 <= k < r@.len() implies spec_is_cached_device_index(
                self,
                #[trigger] r@[k],
            ) by {
                let key = self.cached_devices.pairs_seq()[k].0@;
                assert(self.cached_devices@.dom().contains(key) && self.cached_devices@[key]
                    == r@[k]);
            }
            assert forall|id: Seq<char>|
                self.cached_devices@.dom().contains(id) implies exists|k: int|
                0 <= k < r@.len() && #[trigger] r@[k] == self.cached_devices@[id] by {
                let j = choose|j: int|
                    0 <= j < self.cached_devices.pairs_seq().len()
                        && (#[trigger] self.cached_devices.pairs_seq()[j]).0@ == id;
                assert(r@[j] == self.cached_devices@[id]);
            }
        }
        r
    }

    /// Looks a device up by id: from the cache if present, otherwise after
    /// registering the adapter session's devices, otherwise absent.
    fn get_device(&mut self, device_id: &String) -> (r: Option<usize>)
        requires
            old(self).wf(),
            old(self).adapter is Some,
        ensures
            final(self).wf(),
            BluetoothManager::spec_state_monotone(old(self), final(self)),
            final(self).store == old(self).store,
            final(self).adapter == old(self).adapter,
            final(self).testing == old(self).testing,
            final(self).cached_services == old(self).cached_services,
            final(self).cached_characteristics == old(self).cached_characteristics,
            final(self).cached_descriptors == old(self).cached_descriptors,
            final(self).service_to_device == old(self).service_to_device,
            final(self).characteristic_to_service == old(self).characteristic_to_service,
            final(self).descriptor_to_characteristic == old(self).descriptor_to_characteristic,
            BluetoothManager::spec_allowed_preserved(old(self), final(self)),
            forall|k: Seq<char>|
                #[trigger] final(self).allowed_services@.dom().contains(k) && !old(
                    self,
                ).allowed_services@.dom().contains(k) ==> final(self).allowed_services@[k]@
                    == Set::<Seq<char>>::empty(),
            match r {
                Some(idx) => final(self).cached_devices@.dom().contains(device_id@)
                    && final(self).cached_devices@[device_id@] == idx
                    && idx < final(self).store.devices@.len(),
                None => !final(self).cached_devices@.dom().contains(device_id@),
            },
    {
        if let Some(idx) = self.cached_devices.get(device_id) {
            return Some(*idx);
        }
        self.get_and_cache_devices();
        if let Some(idx) = self.cached_devices.get(device_id) {
            return Some(*idx);
        }
        None
    }

    /// Repopulates the service tier for a device from the driver: every
    /// service record of the device is cached under its driver id, with its
    /// parent pointer set to the device id. Returns the device's service
    /// record indices; an unknown device yields none.
    fn get_and_cache_gatt_services(&mut self, device_id: &String) -> (r: Vec<usize>)
        requires
            old(self).wf(),
            old(self).adapter is Some,
        ensures
            final(self).wf(),
            BluetoothManager::spec_state_monotone(old(self), final(self)),
            final(self).store == old(self).store,
            final(self).adapter == old(self).adapter,
            final(self).testing == old(self).testing,
            final(self).cached_characteristics == old(self).cached_characteristics,
            final(self).cached_descriptors == old(self).cached_descriptors,
            final(self).characteristic_to_service == old(self).characteristic_to_service,
            final(self).descriptor_to_characteristic == old(self).descriptor_to_characteristic,
            !final(self).cached_devices@.dom().contains(device_id@) ==> r@.len() == 0,
            final(self).cached_devices@.dom().contains(device_id@) ==> {
                let d = final(self).cached_devices@[device_id@];
                &&& forall|k: int|
                    0 <= k < r@.len() ==> (#[trigger] r@[k]) < final(self).store.services@.len()
                        && final(self).store.services@[r@[k] as int].device == d
                        && final(self).cached_services@.dom().contains(
                        final(self).store.services@[r@[k] as int].id@,
                    )
                &&& forall|j: int|
                    0 <= j < final(self).store.services@.len()
                        && (#[trigger] final(self).store.services@[j]).device == d ==> exists|
                        k: int,
                    | 0 <= k < r@.len() && r@[k] == j
            },
    {
        let found = self.get_device(device_id);
        let d = match found {
            Some(d) => d,
            None => {
                return Vec::new();
            },
        };
        let svc = self.store.services_of_device(d);
        let ghost mid = *self;
        let n = svc.len();
        let mut i: usize = 0;
        while i < n
            invariant
                self.wf(),
                n == svc@.len(),
                0 <= i <= n,
                BluetoothManager::spec_state_monotone(&mid, self),
                self.store == mid.store,
                self.adapter == mid.adapter,
                self.testing == mid.testing,
                self.cached_devices == mid.cached_devices,
                self.address_to_id == mid.address_to_id,
                self.allowed_services == mid.allowed_services,
                self.cached_characteristics == mid.cached_characteristics,
                self.cached_descriptors == mid.cached_descriptors,
                self.characteristic_to_service == mid.characteristic_to_service,
                self.descriptor_to_characteristic == mid.descriptor_to_characteristic,
                mid.cached_devices@.dom().contains(device_id@),
                mid.cached_devices@[device_id@] == d,
                forall|k: int|
                    0 <= k < n ==> (#[trigger] svc@[k]) < mid.store.services@.len()
                        && mid.store.services@[svc@[k] as int].device == d,
                forall|k: int|
                    0 <= k < i ==> self.cached_services@.dom().contains(
                        mid.store.services@[#[trigger] svc@[k] as int].id@,
                    ),
            decreases n - i,
        {
            let idx = svc[i];
            let id = self.store.services[idx].id.clone();
            self.service_to_device.insert(id.clone(), device_id.clone());
            self.cached_services.insert(id, idx);
            i = i + 1;
        }
        svc
    }

    /// Looks a service up by id: from the cache if present, otherwise after
    /// repopulating its device's service tier, otherwise absent.
    fn get_gatt_service(&mut self, service_id: &String) -> (r: Option<usize>)
        requires
            old(self).wf(),
            old(self).adapter is Some,
        ensures
            final(self).wf(),
            BluetoothManager::spec_state_monotone(old(self), final(self)),
            final(self).store == old(self).store,
            final(self).adapter == old(self).adapter,
            final(self).testing == old(self).testing,
            final(self).cached_characteristics == old(self).cached_characteristics,
            final(self).cached_descriptors == old(self).cached_descriptors,
            final(self).characteristic_to_service == old(self).characteristic_to_service,
            final(self).descriptor_to_characteristic == old(self).descriptor_to_characteristic,
            match r {
                Some(idx) => final(self).cached_services@.dom().contains(service_id@)
                    && final(self).cached_services@[service_id@] == idx
                    && idx < final(self).store.services@.len()
                    && final(self).store.services@[idx as int].id@ == service_id@,
                None => !final(self).cached_services@.dom().contains(service_id@),
            },
    {
        if let Some(idx) = self.cached_services.get(service_id) {
            return Some(*idx);
        }
        let device_id = match self.service_to_device.get(service_id) {
            Some(d) => d.clone(),
            None => {
                return None;
            },
        };
        self.get_and_cache_gatt_services(&device_id);
        if let Some(idx) = self.cached_services.get(service_id) {
            return Some(*idx);
        }
        None
    }

    /// The device's service records carrying the given UUID, repopulating the
    /// service tier on the way.
    fn get_gatt_services_by_uuid(&mut self, device_id: &String, service_uuid: &String) -> (r: Vec<
        usize,
    >)
        requires
            old(self).wf(),
            old(self).adapter is Some,
        ensures
            final(self).wf(),
            BluetoothManager::spec_state_monotone(old(self), final(self)),
            final(self).store == old(self).store,
            final(self).adapter == old(self).adapter,
            final(self).testing == old(self).testing,
            final(self).cached_characteristics == old(self).cached_characteristics,
            final(self).cached_descriptors == old(self).cached_descriptors,
            final(self).characteristic_to_service == old(self).characteristic_to_service,
            final(self).descriptor_to_characteristic == old(self).descriptor_to_characteristic,
            !final(self).cached_devices@.dom().contains(device_id@) ==> r@.len() == 0,
            final(self).cached_devices@.dom().contains(device_id@) ==> {
                let d = final(self).cached_devices@[device_id@];
                &&& forall|k: int|
                    0 <= k < r@.len() ==> (#[trigger] r@[k]) < final(self).store.services@.len()
                        && final(self).store.services@[r@[k] as int].device == d
                        && spec_uuid_eq(final(self).store.services@[r@[k] as int].uuid@, service_uuid@)
                        && final(self).cached_services@.dom().contains(
                        final(self).store.services@[r@[k] as int].id@,
                    )
                &&& forall|j: int|
                    0 <= j < final(self).store.services@.len()
                        && (#[trigger] final(self).store.services@[j]).device == d
                        && spec_uuid_eq(final(self).store.services@[j].uuid@, service_uuid@) ==> exists|k: int|
                        0 <= k < r@.len() && r@[k] == j
            },
    {
        let svc = self.get_and_cache_gatt_services(device_id);
        let n = svc.len();
        if n == 0 {
            let empty: Vec<usize> = Vec::new();
            return empty;
        }
        proof {
            assert(self.cached_devices@.dom().contains(device_id@));
        }
        let mut r: Vec<usize> = Vec::new();
        let mut i: usize = 0;
        while i < n
            invariant
                self.wf(),
                n == svc@.len(),
                0 <= i <= n,
                forall|k: int|
                    0 <= k < r@.len() ==> exists|k2: int|
                        0 <= k2 < i && (#[trigger] r@[k]) == svc@[k2]
                            && spec_uuid_eq(self.store.services@[r@[k] as int].uuid@, service_uuid@),
                forall|k2: int|
                    0 <= k2 < i && spec_uuid_eq(
                        self.store.services@[#[trigger] svc@[k2] as int].uuid@,
                        service_uuid@,
                    ) ==> exists|k: int| 0 <= k < r@.len() && r@[k] == svc@[k2],
                forall|k2: int| 0 <= k2 < n ==> (#[trigger] svc@[k2]) < self.store.services@.len(),
            decreases n - i,
        {
            let idx = svc[i];
            if uuid_eq(&self.store.services[idx].uuid, service_uuid) {
                let ghost old_r = r@;
                r.push(idx);
                proof {
                    assert forall|k2: int|
                        0 <= k2 < i + 1 && spec_uuid_eq(
                            self.store.services@[#[trigger] svc@[k2] as int].uuid@,
                            service_uuid@,
                        ) implies exists|k: int|
                        0 <= k < r@.len() && r@[k] == svc@[k2] by {
                        if k2 == i {
                            assert(r@[old_r.len() as int] == svc@[k2]);
                        } else {
                            let k = choose|k: int| 0 <= k < old_r.len() && old_r[k] == svc@[k2];
                            assert(r@[k] == svc@[k2]);
                        }
                    }
                }
            }
            i = i + 1;
        }
        proof {
            if self.cached_devices@.dom().contains(device_id@) {
                let d = self.cached_devices@[device_id@];
                assert forall|j: int|
                    0 <= j < self.store.services@.len() && (
                    #[trigger] self.store.services@[j]).device == d && spec_uuid_eq(
                    self.store.services@[j].uuid@,
                    service_uuid@,
                ) implies exists|k: int|
                    0 <= k < r@.len() && r@[k] == j by {
                    let k2 = choose|k2: int| 0 <= k2 < svc@.len() && svc@[k2] == j;
                    assert(spec_uuid_eq(self.store.services@[svc@[k2] as int].uuid@, service_uuid@));
                }
            }
        }
        r
    }

    /// Repopulates the characteristic tier for a service from the driver:
    /// every characteristic record of the service is cached under its driver
    /// id, with its parent pointer set to the service id. Returns the
    /// service's characteristic record indices; an unknown service yields
    /// none.
    fn get_and_cache_gatt_characteristics(&mut self, service_id: &String) -> (r: Vec<usize>)
        requires
            old(self).wf(),
            old(self).adapter is Some,
        ensures
            final(self).wf(),
            BluetoothManager::spec_state_monotone(old(self), final(self)),
            final(self).store == old(self).store,
            final(self).adapter == old(self).adapter,
            final(self).testing == old(self).testing,
            final(self).cached_descriptors == old(self).cached_descriptors,
            final(self).descriptor_to_characteristic == old(self).descriptor_to_characteristic,
            !final(self).cached_services@.dom().contains(service_id@) ==> r@.len() == 0,
            final(self).cached_services@.dom().contains(service_id@) ==> {
                let sv = final(self).cached_services@[service_id@];
                &&& forall|k: int|
                    0 <= k < r@.len() ==> (#[trigger] r@[k]) < final(self).store.characteristics@.len() && final(self).store.characteristics@[r@[k] as int].service
                        == sv && final(self).cached_characteristics@.dom().contains(
                        final(self).store.characteristics@[r@[k] as int].id@,
                    )
                &&& forall|j: int|
                    0 <= j < final(self).store.characteristics@.len()
                        && (#[trigger] final(self).store.characteristics@[j]).service == sv
                        ==> exists|k: int| 0 <= k < r@.len() && r@[k] == j
            },
    {
        let found = self.get_gatt_service(service_id);
        let sv = match found {
            Some(sv) => sv,
            None => {
                return Vec::new();
            },
        };
        let chars = self.store.characteristics_of_service(sv);
        let ghost mid = *self;
        let n = chars.len();
        let mut i: usize = 0;
        while i < n
            invariant
                self.wf(),
                n == chars@.len(),
                0 <= i <= n,
                BluetoothManager::spec_state_monotone(&mid, self),
                self.store == mid.store,
                self.adapter == mid.adapter,
                self.testing == mid.testing,
                self.cached_devices == mid.cached_devices,
                self.cached_services == mid.cached_services,
                self.service_to_device == mid.service_to_device,
                self.address_to_id == mid.address_to_id,
                self.allowed_services == mid.allowed_services,
                self.cached_descriptors == mid.cached_descriptors,
                self.descriptor_to_characteristic == mid.descriptor_to_characteristic,
                mid.cached_services@.dom().contains(service_id@),
                mid.cached_services@[service_id@] == sv,
                forall|k: int|
                    0 <= k < n ==> (#[trigger] chars@[k]) < mid.store.characteristics@.len()
                        && mid.store.characteristics@[chars@[k] as int].service == sv,
                forall|k: int|
                    0 <= k < i ==> self.cached_characteristics@.dom().contains(
                        mid.store.characteristics@[#[trigger] chars@[k] as int].id@,
                    ),
            decreases n - i,
        {
            let idx = chars[i];
            let id = self.store.characteristics[idx].id.clone();
            self.characteristic_to_service.insert(id.clone(), service_id.clone());
            self.cached_characteristics.insert(id, idx);
            i = i + 1;
        }
        chars
    }

    /// Looks a characteristic up by id: from the cache if present, otherwise
    /// after repopulating its service's characteristic tier, otherwise absent.
    fn get_gatt_characteristic(&mut self, characteristic_id: &String) -> (r: Option<usize>)
        requires
            old(self).wf(),
            old(self).adapter is Some,
        ensures
            final(self).wf(),
            BluetoothManager::spec_state_monotone(old(self), final(self)),
            final(self).store == old(self).store,
            final(self).adapter == old(self).adapter,
            final(self).testing == old(self).testing,
            final(self).cached_descriptors == old(self).cached_descriptors,
            final(self).descriptor_to_characteristic == old(self).descriptor_to_characteristic,
            match r {
                Some(idx) => final(self).cached_characteristics@.dom().contains(characteristic_id@)
                    && final(self).cached_characteristics@[characteristic_id@] == idx
                    && idx < final(self).store.characteristics@.len()
                    && final(self).store.characteristics@[idx as int].id@ == characteristic_id@,
                None => !final(self).cached_characteristics@.dom().contains(characteristic_id@),
            },
    {
        if let Some(idx) = self.cached_characteristics.get(characteristic_id) {
            return Some(*idx);
        }
        let service_id = match self.characteristic_to_service.get(characteristic_id) {
            Some(sv) => sv.clone(),
            None => {
                return None;
            },
        };
        self.get_and_cache_gatt_characteristics(&service_id);
        if let Some(idx) = self.cached_characteristics.get(characteristic_id) {
            return Some(*idx);
        }
        None
    }

    /// The service's characteristic records carrying the given UUID,
    /// repopulating the characteristic tier on the way.
    fn get_gatt_characteristics_by_uuid(
        &mut self,
        service_id: &String,
        characteristic_uuid: &String,
    ) -> (r: Vec<usize>)
        requires
            old(self).wf(),
            old(self).adapter is Some,
        ensures
            final(self).wf(),
            BluetoothManager::spec_state_monotone(old(self), final(self)),
            final(self).store == old(self).store,
            final(self).adapter == old(self).adapter,
            final(self).testing == old(self).testing,
            final(self).cached_descriptors == old(self).cached_descriptors,
            final(self).descriptor_to_characteristic == old(self).descriptor_to_characteristic,
            !final(self).cached_services@.dom().contains(service_id@) ==> r@.len() == 0,
            final(self).cached_services@.dom().contains(service_id@) ==> {
                let sv = final(self).cached_services@[service_id@];
                &&& forall|k: int|
                    0 <= k < r@.len() ==> (#[trigger] r@[k]) < final(self).store.characteristics@.len() && final(self).store.characteristics@[r@[k] as int].service
                        == sv && spec_uuid_eq(
                        final(self).store.characteristics@[r@[k] as int].uuid@,
                        characteristic_uuid@,
                    ) && final(self).cached_characteristics@.dom().contains(
                        final(self).store.characteristics@[r@[k] as int].id@,
                    )
                &&& forall|j: int|
                    0 <= j < final(self).store.characteristics@.len()
                        && (#[trigger] final(self).store.characteristics@[j]).service == sv
                        && spec_uuid_eq(
                        final(self).store.characteristics@[j].uuid@,
                        characteristic_uuid@,
                    ) ==> exists|k: int| 0 <= k < r@.len() && r@[k] == j
            },
    {
        let chars = self.get_and_cache_gatt_characteristics(service_id);
        let n = chars.len();
        if n == 0 {
            let empty: Vec<usize> = Vec::new();
            return empty;
        }
        proof {
            assert(self.cached_services@.dom().contains(service_id@));
        }
        let mut r: Vec<usize> = Vec::new();
        let mut i: usize = 0;
        while i < n
            invariant
                self.wf(),
                n == chars@.len(),
                0 <= i <= n,
                forall|k: int|
                    0 <= k < r@.len() ==> exists|k2: int|
                        0 <= k2 < i && (#[trigger] r@[k]) == chars@[k2]
                            && spec_uuid_eq(
                            self.store.characteristics@[r@[k] as int].uuid@,
                            characteristic_uuid@,
                        ),
                forall|k2: int|
                    0 <= k2 < i && spec_uuid_eq(
                        self.store.characteristics@[#[trigger] chars@[k2] as int].uuid@,
                        characteristic_uuid@,
                    ) ==> exists|k: int| 0 <= k < r@.len() && r@[k] == chars@[k2],
                forall|k2: int|
                    0 <= k2 < n ==> (#[trigger] chars@[k2]) < self.store.characteristics@.len(),
            decreases n - i,
        {
            let idx = chars[i];
            if uuid_eq(&self.store.characteristics[idx].uuid, characteristic_uuid) {
                let ghost old_r = r@;
                r.push(idx);
                proof {
                    assert forall|k2: int|
                        0 <= k2 < i + 1 && spec_uuid_eq(
                            self.store.characteristics@[#[trigger] chars@[k2] as int].uuid@,
                            characteristic_uuid@,
                        ) implies exists|k: int|
                        0 <= k < r@.len() && r@[k] == chars@[k2] by {
                        if k2 == i {
                            assert(r@[old_r.len() as int] == chars@[k2]);
                        } else {
                            let k = choose|k: int| 0 <= k < old_r.len() && old_r[k] == chars@[k2];
                            assert(r@[k] == chars@[k2]);
                        }
                    }
                }
            }
            i = i + 1;
        }
        proof {
            if self.cached_services@.dom().contains(service_id@) {
                let sv = self.cached_services@[service_id@];
                assert forall|j: int|
                    0 <= j < self.store.characteristics@.len() && (
                    #[trigger] self.store.characteristics@[j]).service == sv
                        && spec_uuid_eq(
                        self.store.characteristics@[j].uuid@,
                        characteristic_uuid@,
                    ) implies exists|k: int|
                    0 <= k < r@.len() && r@[k] == j by {
                    let k2 = choose|k2: int| 0 <= k2 < chars@.len() && chars@[k2] == j;
                    assert(spec_uuid_eq(
                        self.store.characteristics@[chars@[k2] as int].uuid@,
                        characteristic_uuid@,
                    ));
                }
            }
        }
        r
    }

    /// Repopulates the descriptor tier for a characteristic from the driver:
    /// every descriptor record of the characteristic is cached under its
    /// driver id, with its parent pointer set to the characteristic id.
    /// Returns the characteristic's descriptor record indices; an unknown
    /// characteristic yields none.
    fn get_and_cache_gatt_descriptors(&mut self, characteristic_id: &String) -> (r: Vec<usize>)
        requires
            old(self).wf(),
            old(self).adapter is Some,
        ensures
            final(self).wf(),
            BluetoothManager::spec_state_monotone(old(self), final(self)),
            final(self).store == old(self).store,
            final(self).adapter == old(self).adapter,
            final(self).testing == old(self).testing,
            !final(self).cached_characteristics@.dom().contains(characteristic_id@) ==> r@.len()
                == 0,
            final(self).cached_characteristics@.dom().contains(characteristic_id@) ==> {
                let c = final(self).cached_characteristics@[characteristic_id@];
                &&& forall|k: int|
                    0 <= k < r@.len() ==> (#[trigger] r@[k]) < final(self).store.descriptors@.len() && final(self).store.descriptors@[r@[k] as int].characteristic
                        == c && final(self).cached_descriptors@.dom().contains(
                        final(self).store.descriptors@[r@[k] as int].id@,
                    )
                &&& forall|j: int|
                    0 <= j < final(self).store.descriptors@.len()
                        && (#[trigger] final(self).store.descriptors@[j]).characteristic == c
                        ==> exists|k: int| 0 <= k < r@.len() && r@[k] == j
            },
    {
        let found = self.get_gatt_characteristic(characteristic_id);
        let c = match found {
            Some(c) => c,
            None => {
                return Vec::new();
            },
        };
        let descs = self.store.descriptors_of_characteristic(c);
        let ghost mid = *self;
        let n = descs.len();
        let mut i: usize = 0;
        while i < n
            invariant
                self.wf(),
                n == descs@.len(),
                0 <= i <= n,
                BluetoothManager::spec_state_monotone(&mid, self),
                self.store == mid.store,
                self.adapter == mid.adapter,
                self.testing == mid.testing,
                self.cached_devices == mid.cached_devices,
                self.cached_services == mid.cached_services,
                self.cached_characteristics == mid.cached_characteristics,
                self.service_to_device == mid.service_to_device,
                self.characteristic_to_service == mid.characteristic_to_service,
                self.address_to_id == mid.address_to_id,
                self.allowed_services == mid.allowed_services,
                mid.cached_characteristics@.dom().contains(characteristic_id@),
                mid.cached_characteristics@[characteristic_id@] == c,
                forall|k: int|
                    0 <= k < n ==> (#[trigger] descs@[k]) < mid.store.descriptors@.len()
                        && mid.store.descriptors@[descs@[k] as int].characteristic == c,
                forall|k: int|
                    0 <= k < i ==> self.cached_descriptors@.dom().contains(
                        mid.store.descriptors@[#[trigger] descs@[k] as int].id@,
                    ),
            decreases n - i,
        {
            let idx = descs[i];
            let id = self.store.descriptors[idx].id.clone();
            self.descriptor_to_characteristic.insert(id.clone(), characteristic_id.clone());
            self.cached_descriptors.insert(id, idx);
            i = i + 1;
        }
        descs
    }

    /// Looks a descriptor up by id: from the cache if present, otherwise
    /// after repopulating its characteristic's descriptor tier, otherwise
    /// absent.
    fn get_gatt_descriptor(&mut self, descriptor_id: &String) -> (r: Option<usize>)
        requires
            old(self).wf(),
            old(self).adapter is Some,
        ensures
            final(self).wf(),
            BluetoothManager::spec_state_monotone(old(self), final(self)),
            final(self).store == old(self).store,
            final(self).adapter == old(self).adapter,
            final(self).testing == old(self).testing,
            match r {
                Some(idx) => final(self).cached_descriptors@.dom().contains(descriptor_id@)
                    && final(self).cached_descriptors@[descriptor_id@] == idx
                    && idx < final(self).store.descriptors@.len()
                    && final(self).store.descriptors@[idx as int].id@ == descriptor_id@,
                None => !final(self).cached_descriptors@.dom().contains(descriptor_id@),
            },
    {
        if let Some(idx) = self.cached_descriptors.get(descriptor_id) {
            return Some(*idx);
        }
        let characteristic_id = match self.descriptor_to_characteristic.get(descriptor_id) {
            Some(c) => c.clone(),
            None => {
                return None;
            },
        };
        self.get_and_cache_gatt_descriptors(&characteristic_id);
        if let Some(idx) = self.cached_descriptors.get(descriptor_id) {
            return Some(*idx);
        }
        None
    }

    /// The characteristic's descriptor records carrying the given UUID,
    /// repopulating the descriptor tier on the way.
    fn get_gatt_descriptors_by_uuid(
        &mut self,
        characteristic_id: &String,
        descriptor_uuid: &String,
    ) -> (r: Vec<usize>)
        requires
            old(self).wf(),
            old(self).adapter is Some,
        ensures
            final(self).wf(),
            BluetoothManager::spec_state_monotone(old(self), final(self)),
            final(self).store == old(self).store,
            final(self).adapter == old(self).adapter,
            final(self).testing == old(self).testing,
            !final(self).cached_characteristics@.dom().contains(characteristic_id@) ==> r@.len()
                == 0,
            final(self).cached_characteristics@.dom().contains(characteristic_id@) ==> {
                let c = final(self).cached_characteristics@[characteristic_id@];
                &&& forall|k: int|
                    0 <= k < r@.len() ==> (#[trigger] r@[k]) < final(self).store.descriptors@.len() && final(self).store.descriptors@[r@[k] as int].characteristic
                        == c && spec_uuid_eq(
                        final(self).store.descriptors@[r@[k] as int].uuid@,
                        descriptor_uuid@,
                    ) && final(self).cached_descriptors@.dom().contains(
                        final(self).store.descriptors@[r@[k] as int].id@,
                    )
                &&& forall|j: int|
                    0 <= j < final(self).store.descriptors@.len()
                        && (#[trigger] final(self).store.descriptors@[j]).characteristic == c
                        && spec_uuid_eq(final(self).store.descriptors@[j].uuid@, descriptor_uuid@)
                        ==> exists|k: int| 0 <= k < r@.len() && r@[k] == j
            },
    {
        let descs = self.get_and_cache_gatt_descriptors(characteristic_id);
        let n = descs.len();
        if n == 0 {
            let empty: Vec<usize> = Vec::new();
            return empty;
        }
        proof {
            assert(self.cached_characteristics@.dom().contains(characteristic_id@));
        }
        let mut r: Vec<usize> = Vec::new();
        let mut i: usize = 0;
        while i < n
            invariant
                self.wf(),
                n == descs@.len(),
                0 <= i <= n,
                forall|k: int|
                    0 <= k < r@.len() ==> exists|k2: int|
                        0 <= k2 < i && (#[trigger] r@[k]) == descs@[k2]
                            && spec_uuid_eq(
                            self.store.descriptors@[r@[k] as int].uuid@,
                            descriptor_uuid@,
                        ),
                forall|k2: int|
                    0 <= k2 < i && spec_uuid_eq(
                        self.store.descriptors@[#[trigger] descs@[k2] as int].uuid@,
                        descriptor_uuid@,
                    ) ==> exists|k: int| 0 <= k < r@.len() && r@[k] == descs@[k2],
                forall|k2: int|
                    0 <= k2 < n ==> (#[trigger] descs@[k2]) < self.store.descriptors@.len(),
            decreases n - i,
        {
            let idx = descs[i];
            if uuid_eq(&self.store.descriptors[idx].uuid, descriptor_uuid) {
                let ghost old_r = r@;
                r.push(idx);
                proof {
                    assert forall|k2: int|
                        0 <= k2 < i + 1 && spec_uuid_eq(
                            self.store.descriptors@[#[trigger] descs@[k2] as int].uuid@,
                            descriptor_uuid@,
                        ) implies exists|k: int|
                        0 <= k < r@.len() && r@[k] == descs@[k2] by {
                        if k2 == i {
                            assert(r@[old_r.len() as int] == descs@[k2]);
                        } else {
                            let k = choose|k: int| 0 <= k < old_r.len() && old_r[k] == descs@[k2];
                            assert(r@[k] == descs@[k2]);
                        }
                    }
                }
            }
            i = i + 1;
        }
        proof {
            if self.cached_characteristics@.dom().contains(characteristic_id@) {
                let c = self.cached_characteristics@[characteristic_id@];
                assert forall|j: int|
                    0 <= j < self.store.descriptors@.len() && (
                    #[trigger] self.store.descriptors@[j]).characteristic == c
                        && spec_uuid_eq(self.store.descriptors@[j].uuid@, descriptor_uuid@) implies exists|
                        k: int,
                    | 0 <= k < r@.len() && r@[k] == j by {
                    let k2 = choose|k2: int| 0 <= k2 < descs@.len() && descs@[k2] == j;
                    assert(spec_uuid_eq(
                        self.store.descriptors@[descs@[k2] as int].uuid@,
                        descriptor_uuid@,
                    ));
                }
            }
        }
        r
    }

    /// Connects a device's GATT server. An already-connected device succeeds
    /// at once; otherwise the driver's connect is issued and connectedness is
    /// polled. The store settles synchronously on connect, so one poll
    /// decides: connectable devices connect, others time the transaction out.
    pub fn gatt_server_connect(&mut self, device_id: String) -> (r: BluetoothResult<bool>)
        requires
            old(self).wf(),
        ensures
            final(self).wf(),
            BluetoothManager::spec_state_monotone(old(self), final(self)),
            final(self).adapter == old(self).adapter,
            final(self).testing == old(self).testing,
            old(self).spec_adapter_absent() ==> (r matches Err(BluetoothError::AdapterError)
                && *final(self) == *old(self)),
            !old(self).spec_adapter_absent() && !old(self).adapter->0.powered ==> (r matches Err(
                BluetoothError::AdapterNotPowered,
            ) && *final(self) == *old(self)),
            old(self).spec_gate_ready() ==> {
                &&& (!final(self).cached_devices@.dom().contains(device_id@) <==> r matches Err(
                    BluetoothError::NotFound,
                ))
                &&& final(self).cached_devices@.dom().contains(device_id@) ==> {
                    let d = final(self).cached_devices@[device_id@] as int;
                    &&& (r matches Ok(b) ==> b && final(self).store.devices@[d].connected)
                    &&& (old(self).store.devices@[d].connected
                        || old(self).store.devices@[d].connectable ==> (r matches Ok(b) && b))
                    &&& (!old(self).store.devices@[d].connected && !old(self).store.devices@[d].connectable ==> r matches Err(BluetoothError::Network))
                }
            },
    {
        if let Err(e) = self.adapter_gate() {
            return Err(e);
        }
        match self.get_device(&device_id) {
            Some(d) => {
                if self.store.devices[d].connected {
                    return Ok(true);
                }
                self.store.connect_device(d);
                if self.store.devices[d].connected {
                    return Ok(true);
                }
                Err(BluetoothError::Network)
            },
            None => Err(BluetoothError::NotFound),
        }
    }

    /// Disconnects a device's GATT server. A device that is not connected
    /// succeeds at once; otherwise the driver's disconnect is issued, after
    /// which the device reports not connected.
    pub fn gatt_server_disconnect(&mut self, device_id: String) -> (r: BluetoothResult<bool>)
        requires
            old(self).wf(),
        ensures
            final(self).wf(),
            BluetoothManager::spec_state_monotone(old(self), final(self)),
            final(self).adapter == old(self).adapter,
            final(self).testing == old(self).testing,
            old(self).spec_adapter_absent() ==> (r matches Err(BluetoothError::AdapterError)
                && *final(self) == *old(self)),
            !old(self).spec_adapter_absent() && !old(self).adapter->0.powered ==> (r matches Err(
                BluetoothError::AdapterNotPowered,
            ) && *final(self) == *old(self)),
            old(self).spec_gate_ready() ==> {
                &&& (!final(self).cached_devices@.dom().contains(device_id@) <==> r matches Err(
                    BluetoothError::NotFound,
                ))
                &&& final(self).cached_devices@.dom().contains(device_id@) ==> {
                    let d = final(self).cached_devices@[device_id@] as int;
                    &&& r matches Ok(b) && !b
                    &&& !final(self).store.devices@[d].connected
                }
            },
    {
        if let Err(e) = self.adapter_gate() {
            return Err(e);
        }
        match self.get_device(&device_id) {
            Some(d) => {
                if !self.store.devices[d].connected {
                    return Ok(false);
                }
                self.store.disconnect_device(d);
                Ok(false)
            },
            None => Err(BluetoothError::NotFound),
        }
    }

    /// Reads the value of the attribute an identifier denotes: a cached
    /// characteristic first, a cached descriptor on a miss, `NotSupported` on
    /// a double miss.
    pub fn read_value(&mut self, id: String) -> (r: BluetoothResult<Vec<u8>>)
        requires
            old(self).wf(),
        ensures
            final(self).wf(),
            BluetoothManager::spec_state_monotone(old(self), final(self)),
            final(self).store == old(self).store,
            final(self).adapter == old(self).adapter,
            final(self).testing == old(self).testing,
            old(self).spec_adapter_absent() ==> (r matches Err(BluetoothError::AdapterError)
                && *final(self) == *old(self)),
            !old(self).spec_adapter_absent() && !old(self).adapter->0.powered ==> (r matches Err(
                BluetoothError::AdapterNotPowered,
            ) && *final(self) == *old(self)),
            old(self).spec_gate_ready() ==> {
                &&& (r matches Ok(v) ==> (final(self).cached_characteristics@.dom().contains(id@)
                    && v@ == final(self).store.characteristics@[final(self).cached_characteristics@[id@] as int].value@)
                    || (final(self).cached_descriptors@.dom().contains(id@)
                    && v@ == final(self).store.descriptors@[final(self).cached_descriptors@[id@] as int].value@))
                &&& old(self).cached_characteristics@.dom().contains(id@) || old(self).cached_descriptors@.dom().contains(id@) ==> r is Ok
                &&& (r matches Err(e) ==> e matches BluetoothError::NotSupported
                    && !old(self).cached_characteristics@.dom().contains(id@)
                    && !old(self).cached_descriptors@.dom().contains(id@)
                    && !final(self).cached_descriptors@.dom().contains(id@))
            },
    {
        if let Err(e) = self.adapter_gate() {
            return Err(e);
        }
        if let Some(c) = self.get_gatt_characteristic(&id) {
            return Ok(self.store.characteristics[c].value.clone());
        }
        if let Some(d) = self.get_gatt_descriptor(&id) {
            return Ok(self.store.descriptors[d].value.clone());
        }
        Err(BluetoothError::NotSupported)
    }

    /// Writes a value to the attribute an identifier denotes: a cached
    /// characteristic first, a cached descriptor on a miss, `NotSupported` on
    /// a double miss.
    pub fn write_value(&mut self, id: String, value: Vec<u8>) -> (r: BluetoothResult<bool>)
        requires
            old(self).wf(),
        ensures
            final(self).wf(),
            BluetoothManager::spec_state_monotone(old(self), final(self)),
            final(self).adapter == old(self).adapter,
            final(self).testing == old(self).testing,
            old(self).spec_adapter_absent() ==> (r matches Err(BluetoothError::AdapterError)
                && *final(self) == *old(self)),
            !old(self).spec_adapter_absent() && !old(self).adapter->0.powered ==> (r matches Err(
                BluetoothError::AdapterNotPowered,
            ) && *final(self) == *old(self)),
            old(self).spec_gate_ready() ==> {
                &&& (r matches Ok(b) ==> b && ((final(self).cached_characteristics@.dom().contains(
                    id@,
                ) && final(self).store.characteristics@[final(self).cached_characteristics@[id@] as int].value@
                    == value@) || (final(self).cached_descriptors@.dom().contains(id@)
                    && final(self).store.descriptors@[final(self).cached_descriptors@[id@] as int].value@
                    == value@)))
                &&& old(self).cached_characteristics@.dom().contains(id@) || old(self).cached_descriptors@.dom().contains(id@) ==> r is Ok
                &&& (r matches Err(e) ==> e matches BluetoothError::NotSupported
                    && !old(self).cached_characteristics@.dom().contains(id@)
                    && !old(self).cached_descriptors@.dom().contains(id@)
                    && !final(self).cached_descriptors@.dom().contains(id@))
            },
    {
        if let Err(e) = self.adapter_gate() {
            return Err(e);
        }
        if let Some(c) = self.get_gatt_characteristic(&id) {
            self.store.write_characteristic_value(c, value);
            return Ok(true);
        }
        if let Some(d) = self.get_gatt_descriptor(&id) {
            self.store.write_descriptor_value(d, value);
            return Ok(true);
        }
        Err(BluetoothError::NotSupported)
    }

    /// Whether the origin has been granted the service UUID for the device;
    /// grants compare equal up to ASCII case.
    pub open spec fn spec_service_allowed(&self, device_id: Seq<char>, uuid: Seq<char>) -> bool {
        &&& self.allowed_services@.dom().contains(device_id)
        &&& exists|u: Seq<char>|
            #[trigger] self.allowed_services@[device_id]@.contains(u) && spec_uuid_eq(u, uuid)
    }

    /// Whether some primary service with the UUID exists on the cached device.
    pub open spec fn spec_has_matching_primary(&self, device_id: Seq<char>, uuid: Seq<char>) -> bool {
        &&& self.cached_devices@.dom().contains(device_id)
        &&& exists|j: int|
            0 <= j < self.store.services@.len() && (#[trigger] self.store.services@[j]).device
                == self.cached_devices@[device_id] && spec_uuid_eq(
                self.store.services@[j].uuid@,
                uuid,
            ) && self.store.services@[j].is_primary
    }

    /// The adapter check of the included-service handlers: only absence is
    /// rejected; the power state is not consulted.
    fn adapter_present_check(&self) -> (r: Result<(), BluetoothError>)
        ensures
            r matches Ok(()) <==> !self.spec_adapter_absent(),
            r matches Err(e) ==> e matches BluetoothError::AdapterError,
    {
        match &self.adapter {
            None => Err(BluetoothError::AdapterError),
            Some(a) => {
                if self.testing && !a.present {
                    Err(BluetoothError::AdapterError)
                } else {
                    Ok(())
                }
            },
        }
    }

    /// Looks up the primary service with the given UUID on a device. The
    /// UUID must be in the device's allowed set, else `Security`; a device or
    /// service that cannot be resolved is `NotFound`.
    #[verifier::loop_isolation(false)]
    pub fn get_primary_service(&mut self, device_id: String, uuid: String) -> (r: BluetoothResult<
        crate::messages::BluetoothServiceMsg,
    >)
        requires
            old(self).wf(),
        ensures
            final(self).wf(),
            BluetoothManager::spec_state_monotone(old(self), final(self)),
            final(self).adapter == old(self).adapter,
            final(self).testing == old(self).testing,
            old(self).spec_adapter_absent() ==> (r matches Err(BluetoothError::AdapterError)
                && *final(self) == *old(self)),
            !old(self).spec_adapter_absent() && !old(self).adapter->0.powered ==> (r matches Err(
                BluetoothError::AdapterNotPowered,
            ) && *final(self) == *old(self)),
            old(self).spec_gate_ready() ==> {
                &&& (!old(self).spec_service_allowed(device_id@, uuid@) <==> (r matches Err(
                    BluetoothError::Security,
                ) && *final(self) == *old(self)))
                &&& old(self).spec_service_allowed(device_id@, uuid@) ==> {
                    &&& (r is Ok <==> final(self).spec_has_matching_primary(device_id@, uuid@))
                    &&& (r matches Ok(m) ==> spec_uuid_eq(m.uuid@, uuid@) && m.is_primary
                        && final(self).cached_services@.dom().contains(m.instance_id@)
                        && exists|j: int|
                        0 <= j < final(self).store.services@.len() && (#[trigger] final(self).store.services@[j]).device == final(self).cached_devices@[device_id@]
                            && spec_uuid_eq(final(self).store.services@[j].uuid@, uuid@)
                            && final(self).store.services@[j].is_primary && m.uuid@ == final(self).store.services@[j].uuid@
                            && m.instance_id@ == final(self).store.services@[j].id@)
                    &&& (!final(self).spec_has_matching_primary(device_id@, uuid@) ==> r matches
                        Err(BluetoothError::NotFound))
                }
            },
    {
        if let Err(e) = self.adapter_gate() {
            return Err(e);
        }
        let allowed = match self.allowed_services.get(&device_id) {
            Some(set) => set.contains_ci(&uuid),
            None => false,
        };
        if !allowed {
            return Err(BluetoothError::Security);
        }
        let services = self.get_gatt_services_by_uuid(&device_id, &uuid);
        let n = services.len();
        if n == 0 {
            return Err(BluetoothError::NotFound);
        }
        proof {
            assert(self.cached_devices@.dom().contains(device_id@));
        }
        let mut i: usize = 0;
        while i < n
            invariant
                self.wf(),
                n == services@.len(),
                0 <= i <= n,
                self.cached_devices@.dom().contains(device_id@),
                forall|k: int|
                    0 <= k < n ==> (#[trigger] services@[k]) < self.store.services@.len()
                        && self.store.services@[services@[k] as int].device
                        == self.cached_devices@[device_id@]
                        && spec_uuid_eq(self.store.services@[services@[k] as int].uuid@, uuid@),
                forall|j: int|
                    0 <= j < self.store.services@.len() && (
                    #[trigger] self.store.services@[j]).device == self.cached_devices@[device_id@]
                        && spec_uuid_eq(self.store.services@[j].uuid@, uuid@) ==> exists|k: int|
                        0 <= k < n && services@[k] == j,
                forall|k: int|
                    0 <= k < i ==> !self.store.services@[#[trigger] services@[k] as int].is_primary,
            decreases n - i,
        {
            let idx = services[i];
            if self.store.services[idx].is_primary {
                let msg = crate::messages::BluetoothServiceMsg {
                    uuid: self.store.services[idx].uuid.clone(),
                    is_primary: true,
                    instance_id: self.store.services[idx].id.clone(),
                };
                return Ok(msg);
            }
            i = i + 1;
        }
        proof {
            assert forall|j: int|
                0 <= j < self.store.services@.len() && (#[trigger] self.store.services@[j]).device
                    == self.cached_devices@[device_id@] && spec_uuid_eq(
                    self.store.services@[j].uuid@,
                    uuid@,
                ) implies !self.store.services@[j].is_primary by {
                let k = choose|k: int| 0 <= k < n && services@[k] == j;
                assert(!self.store.services@[services@[k] as int].is_primary);
            }
        }
        Err(BluetoothError::NotFound)
    }

    /// Looks up a service included by another service, by UUID. Only adapter
    /// absence is rejected here; the power state is not consulted.
    #[verifier::loop_isolation(false)]
    pub fn get_included_service(&mut self, service_id: String, uuid: String) -> (r: BluetoothResult<
        crate::messages::BluetoothServiceMsg,
    >)
        requires
            old(self).wf(),
        ensures
            final(self).wf(),
            BluetoothManager::spec_state_monotone(old(self), final(self)),
            final(self).adapter == old(self).adapter,
            final(self).testing == old(self).testing,
            old(self).spec_adapter_absent() ==> (r matches Err(BluetoothError::AdapterError)
                && *final(self) == *old(self)),
            !old(self).spec_adapter_absent() ==> {
                &&& !final(self).cached_services@.dom().contains(service_id@) ==> (r matches Err(
                    BluetoothError::NotFound,
                ))
                &&& final(self).cached_services@.dom().contains(service_id@) ==> {
                    let sv = final(self).cached_services@[service_id@] as int;
                    let incs = final(self).store.services@[sv].includes@;
                    &&& (r is Ok <==> exists|k: int|
                        0 <= k < incs.len() && spec_uuid_eq(
                            final(self).store.services@[(#[trigger] incs[k]) as int].uuid@,
                            uuid@,
                        ))
                    &&& (r matches Ok(m) ==> m.uuid@ == uuid@ && exists|k: int|
                        0 <= k < incs.len() && spec_uuid_eq(
                            final(self).store.services@[(#[trigger] incs[k]) as int].uuid@,
                            uuid@,
                        ) && m.instance_id@ == final(self).store.services@[incs[k] as int].id@ && m.is_primary == final(self).store.services@[incs[k] as int].is_primary)
                    &&& (r is Err ==> (r matches Err(BluetoothError::NotFound)))
                }
            },
    {
        if let Err(e) = self.adapter_present_check() {
            return Err(e);
        }
        let sv = match self.get_gatt_service(&service_id) {
            Some(sv) => sv,
            None => {
                return Err(BluetoothError::NotFound);
            },
        };
        let n = self.store.services[sv].includes.len();
        let mut k: usize = 0;
        while k < n
            invariant
                n == self.store.services@[sv as int].includes@.len(),
                forall|k2: int|
                    0 <= k2 < k ==> !spec_uuid_eq(
                        final(self).store.services@[(#[trigger] final(self).store.services@[sv as int].includes@[k2]) as int].uuid@,
                        uuid@,
                    ),
            decreases n - k,
        {
            let inc = self.store.services[sv].includes[k];
            if uuid_eq(&self.store.services[inc].uuid, &uuid) {
                let msg = crate::messages::BluetoothServiceMsg {
                    uuid,
                    is_primary: self.store.services[inc].is_primary,
                    instance_id: self.store.services[inc].id.clone(),
                };
                return Ok(msg);
            }
            k = k + 1;
        }
        Err(BluetoothError::NotFound)
    }

    /// Looks up the characteristic with the given UUID on a service and
    /// reports it with its translated property bit set.
    #[verifier::loop_isolation(false)]
    pub fn get_characteristic(&mut self, service_id: String, uuid: String) -> (r: BluetoothResult<
        crate::messages::BluetoothCharacteristicMsg,
    >)
        requires
            old(self).wf(),
        ensures
            final(self).wf(),
            BluetoothManager::spec_state_monotone(old(self), final(self)),
            final(self).adapter == old(self).adapter,
            final(self).testing == old(self).testing,
            old(self).spec_adapter_absent() ==> (r matches Err(BluetoothError::AdapterError)
                && *final(self) == *old(self)),
            !old(self).spec_adapter_absent() && !old(self).adapter->0.powered ==> (r matches Err(
                BluetoothError::AdapterNotPowered,
            ) && *final(self) == *old(self)),
            old(self).spec_gate_ready() ==> {
                &&& (r is Ok <==> final(self).cached_services@.dom().contains(service_id@)
                    && exists|j: int|
                    0 <= j < final(self).store.characteristics@.len() && (#[trigger] final(self).store.characteristics@[j]).service == final(self).cached_services@[service_id@]
                        && spec_uuid_eq(final(self).store.characteristics@[j].uuid@, uuid@))
                &&& (r matches Ok(m) ==> spec_uuid_eq(m.uuid@, uuid@)
                    && final(self).cached_characteristics@.dom().contains(m.instance_id@)
                    && exists|j: int|
                    0 <= j < final(self).store.characteristics@.len() && (#[trigger] final(self).store.characteristics@[j]).service == final(self).cached_services@[service_id@]
                        && spec_uuid_eq(final(self).store.characteristics@[j].uuid@, uuid@)
                        && m.uuid@ == final(self).store.characteristics@[j].uuid@
                        && m.instance_id@ == final(self).store.characteristics@[j].id@
                        && spec_characteristic_msg_has_properties(
                        &m,
                        crate::properties::spec_properties_of_flags(
                            final(self).store.characteristics@[j].flags@.map_values(
                                |f: String| f@,
                            ),
                        ),
                    ))
                &&& (r is Err ==> (r matches Err(BluetoothError::NotFound)))
            },
    {
        if let Err(e) = self.adapter_gate() {
            return Err(e);
        }
        let chars = self.get_gatt_characteristics_by_uuid(&service_id, &uuid);
        if chars.len() == 0 {
            return Err(BluetoothError::NotFound);
        }
        // the driver always reports a UUID for a cached record, so the first
        // match replies
        let c = chars[0];
        let properties = crate::properties::properties_from_flags(&self.store.characteristics[c].flags);
        let msg = crate::messages::BluetoothCharacteristicMsg {
            uuid: self.store.characteristics[c].uuid.clone(),
            instance_id: self.store.characteristics[c].id.clone(),
            broadcast: properties.broadcast,
            read: properties.read,
            write_without_response: properties.write_without_response,
            write: properties.write,
            notify: properties.notify,
            indicate: properties.indicate,
            authenticated_signed_writes: properties.authenticated_signed_writes,
            reliable_write: properties.reliable_write,
            writable_auxiliaries: properties.writable_auxiliaries,
        };
        Ok(msg)
    }

    /// Looks up the descriptor with the given UUID on a characteristic.
    #[verifier::loop_isolation(false)]
    pub fn get_descriptor(&mut self, characteristic_id: String, uuid: String) -> (r:
        BluetoothResult<crate::messages::BluetoothDescriptorMsg>)
        requires
            old(self).wf(),
        ensures
            final(self).wf(),
            BluetoothManager::spec_state_monotone(old(self), final(self)),
            final(self).adapter == old(self).adapter,
            final(self).testing == old(self).testing,
            old(self).spec_adapter_absent() ==> (r matches Err(BluetoothError::AdapterError)
                && *final(self) == *old(self)),
            !old(self).spec_adapter_absent() && !old(self).adapter->0.powered ==> (r matches Err(
                BluetoothError::AdapterNotPowered,
            ) && *final(self) == *old(self)),
            old(self).spec_gate_ready() ==> {
                &&& (r is Ok <==> final(self).cached_characteristics@.dom().contains(
                    characteristic_id@,
                ) && exists|j: int|
                    0 <= j < final(self).store.descriptors@.len() && (#[trigger] final(self).store.descriptors@[j]).characteristic == final(self).cached_characteristics@[characteristic_id@]
                        && spec_uuid_eq(final(self).store.descriptors@[j].uuid@, uuid@))
                &&& (r matches Ok(m) ==> spec_uuid_eq(m.uuid@, uuid@)
                    && final(self).cached_descriptors@.dom().contains(m.instance_id@)
                    && exists|j: int|
                    0 <= j < final(self).store.descriptors@.len() && (#[trigger] final(self).store.descriptors@[j]).characteristic == final(self).cached_characteristics@[characteristic_id@]
                        && spec_uuid_eq(final(self).store.descriptors@[j].uuid@, uuid@)
                        && m.uuid@ == final(self).store.descriptors@[j].uuid@
                        && m.instance_id@ == final(self).store.descriptors@[j].id@)
                &&& (r is Err ==> (r matches Err(BluetoothError::NotFound)))
            },
    {
        if let Err(e) = self.adapter_gate() {
            return Err(e);
        }
        let descs = self.get_gatt_descriptors_by_uuid(&characteristic_id, &uuid);
        if descs.len() == 0 {
            return Err(BluetoothError::NotFound);
        }
        let d = descs[0];
        let msg = crate::messages::BluetoothDescriptorMsg {
            uuid: self.store.descriptors[d].uuid.clone(),
            instance_id: self.store.descriptors[d].id.clone(),
        };
        Ok(msg)
    }
}

/// Whether service record `j` is reported by a primary-services request on
/// device record `d` with the optional UUID constraint `filt`.
pub open spec fn spec_primary_selected(
    m: &BluetoothManager,
    d: usize,
    filt: Option<Seq<char>>,
    j: int,
) -> bool {
    &&& 0 <= j < m.store.services@.len()
    &&& m.store.services@[j].device == d
    &&& m.store.services@[j].is_primary
    &&& (filt matches Some(u) ==> spec_uuid_eq(m.store.services@[j].uuid@, u))
}

/// Whether characteristic record `j` is reported by a characteristics
/// request on service record `sv` with the optional UUID constraint `filt`.
pub open spec fn spec_characteristic_selected(
    m: &BluetoothManager,
    sv: usize,
    filt: Option<Seq<char>>,
    j: int,
) -> bool {
    &&& 0 <= j < m.store.characteristics@.len()
    &&& m.store.characteristics@[j].service == sv
    &&& (filt matches Some(u) ==> spec_uuid_eq(m.store.characteristics@[j].uuid@, u))
}

/// Whether descriptor record `j` is reported by a descriptors request on
/// characteristic record `c` with the optional UUID constraint `filt`.
pub open spec fn spec_descriptor_selected(
    m: &BluetoothManager,
    c: usize,
    filt: Option<Seq<char>>,
    j: int,
) -> bool {
    &&& 0 <= j < m.store.descriptors@.len()
    &&& m.store.descriptors@[j].characteristic == c
    &&& (filt matches Some(u) ==> spec_uuid_eq(m.store.descriptors@[j].uuid@, u))
}

/// Monotone state growth composes across successive handler steps.
proof fn lemma_state_monotone_trans(
    a: &BluetoothManager,
    b: &BluetoothManager,
    c: &BluetoothManager,
)
    requires
        BluetoothManager::spec_state_monotone(a, b),
        BluetoothManager::spec_state_monotone(b, c),
    ensures
        BluetoothManager::spec_state_monotone(a, c),
{
    assert forall|k: Seq<char>| #[trigger] a.allowed_services@.dom().contains(k) implies
        c.allowed_services@.dom().contains(k) && a.allowed_services@[k]@.subset_of(
        c.allowed_services@[k]@,
    ) by {
        assert(b.allowed_services@.dom().contains(k));
        assert(a.allowed_services@[k]@.subset_of(b.allowed_services@[k]@));
        assert(b.allowed_services@[k]@.subset_of(c.allowed_services@[k]@));
    }
    assert forall|x: Seq<char>| #[trigger] a.address_to_id@.dom().contains(x) implies
        c.address_to_id@.dom().contains(x) && c.address_to_id@[x]@ == a.address_to_id@[x]@ by {
        assert(b.address_to_id@.dom().contains(x));
    }
    assert forall|id: Seq<char>| #[trigger] a.cached_devices@.dom().contains(id) implies
        c.cached_devices@.dom().contains(id) && c.cached_devices@[id] == a.cached_devices@[id] by {
        assert(b.cached_devices@.dom().contains(id));
    }
    assert forall|id: Seq<char>| #[trigger] a.cached_services@.dom().contains(id) implies
        c.cached_services@.dom().contains(id) by {
        assert(b.cached_services@.dom().contains(id));
    }
    assert forall|id: Seq<char>| #[trigger] a.cached_characteristics@.dom().contains(id) implies
        c.cached_characteristics@.dom().contains(id) by {
        assert(b.cached_characteristics@.dom().contains(id));
    }
    assert forall|id: Seq<char>| #[trigger] a.cached_descriptors@.dom().contains(id) implies
        c.cached_descriptors@.dom().contains(id) by {
        assert(b.cached_descriptors@.dom().contains(id));
    }
    assert forall|i: int| 0 <= i < a.store.services@.len() implies {
        &&& (#[trigger] c.store.services@[i]).id == a.store.services@[i].id
        &&& c.store.services@[i].device == a.store.services@[i].device
        &&& c.store.services@[i].uuid == a.store.services@[i].uuid
        &&& c.store.services@[i].is_primary == a.store.services@[i].is_primary
        &&& a.store.services@[i].includes@.is_prefix_of(c.store.services@[i].includes@)
    } by {
        assert((b.store.services@[i]).id == a.store.services@[i].id);
        assert(b.store.services@[i].device == a.store.services@[i].device);
        assert(b.store.services@[i].uuid == a.store.services@[i].uuid);
        assert(b.store.services@[i].is_primary == a.store.services@[i].is_primary);
        assert(a.store.services@[i].includes@.is_prefix_of(b.store.services@[i].includes@));
        assert(b.store.services@[i].includes@.is_prefix_of(c.store.services@[i].includes@));
        let la = a.store.services@[i].includes@.len() as int;
        assert(a.store.services@[i].includes@ =~= c.store.services@[i].includes@.subrange(0, la));
    }
    assert forall|i: int| 0 <= i < a.store.characteristics@.len() implies {
        &&& (#[trigger] c.store.characteristics@[i]).id == a.store.characteristics@[i].id
        &&& c.store.characteristics@[i].service == a.store.characteristics@[i].service
        &&& c.store.characteristics@[i].uuid == a.store.characteristics@[i].uuid
        &&& c.store.characteristics@[i].flags == a.store.characteristics@[i].flags
    } by {
        assert(b.store.characteristics@[i].id == a.store.characteristics@[i].id);
        assert(b.store.characteristics@[i].service == a.store.characteristics@[i].service);
        assert(b.store.characteristics@[i].uuid == a.store.characteristics@[i].uuid);
        assert(b.store.characteristics@[i].flags == a.store.characteristics@[i].flags);
    }
    assert forall|i: int| 0 <= i < a.store.descriptors@.len() implies {
        &&& (#[trigger] c.store.descriptors@[i]).id == a.store.descriptors@[i].id
        &&& c.store.descriptors@[i].characteristic == a.store.descriptors@[i].characteristic
        &&& c.store.descriptors@[i].uuid == a.store.descriptors@[i].uuid
    } by {
        assert(b.store.descriptors@[i].id == a.store.descriptors@[i].id);
        assert(b.store.descriptors@[i].characteristic == a.store.descriptors@[i].characteristic);
        assert(b.store.descriptors@[i].uuid == a.store.descriptors@[i].uuid);
    }
    assert forall|i: int| 0 <= i < a.store.devices@.len() implies {
        &&& (#[trigger] c.store.devices@[i]).id == a.store.devices@[i].id
        &&& c.store.devices@[i].address == a.store.devices@[i].address
        &&& c.store.devices@[i].name == a.store.devices@[i].name
        &&& c.store.devices@[i].connectable == a.store.devices@[i].connectable
        &&& c.store.devices@[i].uuids == a.store.devices@[i].uuids
        &&& c.store.devices@[i].appearance == a.store.devices@[i].appearance
        &&& c.store.devices@[i].tx_power == a.store.devices@[i].tx_power
        &&& c.store.devices@[i].rssi == a.store.devices@[i].rssi
    } by {
        assert((b.store.devices@[i]).id == a.store.devices@[i].id);
        assert(b.store.devices@[i].address == a.store.devices@[i].address);
        assert(b.store.devices@[i].name == a.store.devices@[i].name);
        assert(b.store.devices@[i].connectable == a.store.devices@[i].connectable);
        assert(b.store.devices@[i].uuids == a.store.devices@[i].uuids);
        assert(b.store.devices@[i].appearance == a.store.devices@[i].appearance);
        assert(b.store.devices@[i].tx_power == a.store.devices@[i].tx_power);
        assert(b.store.devices@[i].rssi == a.store.devices@[i].rssi);
    }
}

/// Whether a service reply message reports some service selected by a
/// primary-services request on device record `d` with constraint `filt`.
pub open spec fn spec_service_msg_from(
    m: &BluetoothManager,
    d: usize,
    filt: Option<Seq<char>>,
    msg: crate::messages::BluetoothServiceMsg,
) -> bool {
    exists|j: int|
        #[trigger] spec_primary_selected(m, d, filt, j) && msg.uuid@ == m.store.services@[j].uuid@
            && msg.is_primary && msg.instance_id@ == m.store.services@[j].id@
}

/// Whether a characteristic reply message reports some characteristic
/// selected by a characteristics request on service record `sv` with
/// constraint `filt`.
pub open spec fn spec_characteristic_msg_from(
    m: &BluetoothManager,
    sv: usize,
    filt: Option<Seq<char>>,
    msg: crate::messages::BluetoothCharacteristicMsg,
) -> bool {
    exists|j: int|
        #[trigger] spec_characteristic_selected(m, sv, filt, j) && msg.uuid@
            == m.store.characteristics@[j].uuid@ && msg.instance_id@
            == m.store.characteristics@[j].id@ && spec_characteristic_msg_has_properties(
            &msg,
            crate::properties::spec_properties_of_flags(
                m.store.characteristics@[j].flags@.map_values(|f: String| f@),
            ),
        )
}

/// Whether a descriptor reply message reports some descriptor selected by a
/// descriptors request on characteristic record `c` with constraint `filt`.
pub open spec fn spec_descriptor_msg_from(
    m: &BluetoothManager,
    c: usize,
    filt: Option<Seq<char>>,
    msg: crate::messages::BluetoothDescriptorMsg,
) -> bool {
    exists|j: int|
        #[trigger] spec_descriptor_selected(m, c, filt, j) && msg.uuid@
            == m.store.descriptors@[j].uuid@ && msg.instance_id@ == m.store.descriptors@[j].id@
}

/// Whether every primary service selected on device record `d` is reported
/// by some message in `v`.
pub open spec fn spec_primaries_reported(
    m: &BluetoothManager,
    d: usize,
    filt: Option<Seq<char>>,
    v: Seq<crate::messages::BluetoothServiceMsg>,
) -> bool {
    forall|j: int|
        #[trigger] spec_primary_selected(m, d, filt, j) ==> exists|k: int|
            0 <= k < v.len() && (#[trigger] v[k]).instance_id@ == m.store.services@[j].id@
}

/// Whether every characteristic selected on service record `sv` is
/// reported by some message in `v`.
pub open spec fn spec_characteristics_reported(
    m: &BluetoothManager,
    sv: usize,
    filt: Option<Seq<char>>,
    v: Seq<crate::messages::BluetoothCharacteristicMsg>,
) -> bool {
    forall|j: int|
        #[trigger] spec_characteristic_selected(m, sv, filt, j) ==> exists|k: int|
            0 <= k < v.len() && (#[trigger] v[k]).instance_id@ == m.store.characteristics@[j].id@
}

/// Whether every descriptor selected on characteristic record `c` is
/// reported by some message in `v`.
pub open spec fn spec_descriptors_reported(
    m: &BluetoothManager,
    c: usize,
    filt: Option<Seq<char>>,
    v: Seq<crate::messages::BluetoothDescriptorMsg>,
) -> bool {
    forall|j: int|
        #[trigger] spec_descriptor_selected(m, c, filt, j) ==> exists|k: int|
            0 <= k < v.len() && (#[trigger] v[k]).instance_id@ == m.store.descriptors@[j].id@
}

/// Whether a characteristic reply message carries exactly the given
/// property bit set.
pub open spec fn spec_characteristic_msg_has_properties(
    m: &crate::messages::BluetoothCharacteristicMsg,
    p: crate::properties::CharacteristicProperties,
) -> bool {
    &&& m.broadcast == p.broadcast
    &&& m.read == p.read
    &&& m.write_without_response == p.write_without_response
    &&& m.write == p.write
    &&& m.notify == p.notify
    &&& m.indicate == p.indicate
    &&& m.authenticated_signed_writes == p.authenticated_signed_writes
    &&& m.reliable_write == p.reliable_write
    &&& m.writable_auxiliaries == p.writable_auxiliaries
}

impl BluetoothManager {
    /// Builds the reply messages for the primary services among `services`,
    /// which must be the store's services of device record `d` that meet the
    /// UUID constraint `filt`.
    fn collect_primary_service_msgs(
        &self,
        services: &Vec<usize>,
        Ghost(d): Ghost<usize>,
        Ghost(filt): Ghost<Option<Seq<char>>>,
    ) -> (v: Vec<crate::messages::BluetoothServiceMsg>)
        requires
            forall|k: int|
                0 <= k < services@.len() ==> (#[trigger] services@[k]) < self.store.services@.len()
                    && self.store.services@[services@[k] as int].device == d && (filt matches Some(
                    u,
                ) ==> spec_uuid_eq(self.store.services@[services@[k] as int].uuid@, u)),
            forall|j: int|
                spec_primary_selected(self, d, filt, j) ==> exists|k: int|
                    0 <= k < services@.len() && services@[k] == j,
        ensures
            (v@.len() > 0 <==> exists|j: int| spec_primary_selected(self, d, filt, j)),
            forall|k: int|
                0 <= k < v@.len() ==> spec_service_msg_from(self, d, filt, #[trigger] v@[k]),
            spec_primaries_reported(self, d, filt, v@),
    {
        let n = services.len();
        let mut services_vec: Vec<crate::messages::BluetoothServiceMsg> = Vec::new();
        let mut i: usize = 0;
        while i < n
            invariant
                n == services@.len(),
                0 <= i <= n,
                forall|k: int|
                    0 <= k < n ==> (#[trigger] services@[k]) < self.store.services@.len()
                        && self.store.services@[services@[k] as int].device == d && (
                    filt matches Some(u) ==> spec_uuid_eq(
                        self.store.services@[services@[k] as int].uuid@,
                        u,
                    )),
                forall|k: int|
                    0 <= k < services_vec@.len() ==> spec_service_msg_from(
                        self,
                        d,
                        filt,
                        #[trigger] services_vec@[k],
                    ),
                services_vec@.len() == 0 ==> forall|k2: int|
                    0 <= k2 < i ==> !self.store.services@[#[trigger] services@[k2] as int].is_primary,
                forall|k2: int|
                    0 <= k2 < i && self.store.services@[#[trigger] services@[k2] as int].is_primary
                        ==> exists|k: int|
                        0 <= k < services_vec@.len() && (#[trigger] services_vec@[k]).instance_id@
                            == self.store.services@[services@[k2] as int].id@,
            decreases n - i,
        {
            let idx = services[i];
            if self.store.services[idx].is_primary {
                let ghost old_vec = services_vec@;
                services_vec.push(
                    crate::messages::BluetoothServiceMsg {
                        uuid: self.store.services[idx].uuid.clone(),
                        is_primary: true,
                        instance_id: self.store.services[idx].id.clone(),
                    },
                );
                proof {
                    assert(spec_primary_selected(self, d, filt, idx as int));
                    assert(spec_service_msg_from(
                        self,
                        d,
                        filt,
                        services_vec@[old_vec.len() as int],
                    ));
                    assert forall|k2: int|
                        0 <= k2 < i + 1 && self.store.services@[#[trigger] services@[k2] as int].is_primary implies exists|
                        k: int,
                    |
                        0 <= k < services_vec@.len() && (#[trigger] services_vec@[k]).instance_id@
                            == self.store.services@[services@[k2] as int].id@ by {
                        if k2 == i {
                            assert(services_vec@[old_vec.len() as int].instance_id@
                                == self.store.services@[services@[k2] as int].id@);
                        } else {
                            let k = choose|k: int|
                                0 <= k < old_vec.len() && (#[trigger] old_vec[k]).instance_id@
                                    == self.store.services@[services@[k2] as int].id@;
                            assert(services_vec@[k].instance_id@
                                == self.store.services@[services@[k2] as int].id@);
                        }
                    }
                }
            }
            i = i + 1;
        }
        proof {
            if services_vec@.len() > 0 {
                assert(spec_service_msg_from(self, d, filt, services_vec@[0]));
            } else {
                assert forall|j: int| !spec_primary_selected(self, d, filt, j) by {
                    if spec_primary_selected(self, d, filt, j) {
                        let k = choose|k: int| 0 <= k < services@.len() && services@[k] == j;
                        assert(!self.store.services@[services@[k] as int].is_primary);
                    }
                }
            }
        }
        services_vec
    }

    /// Lists the primary services of a device, optionally constrained to a
    /// UUID. A UUID-constrained request is rejected with `Security` unless
    /// the UUID is in the device's allowed set; the unconstrained form needs
    /// no grant.
    #[verifier::loop_isolation(false)]
    pub fn get_primary_services(&mut self, device_id: String, uuid: Option<String>) -> (r:
        BluetoothResult<Vec<crate::messages::BluetoothServiceMsg>>)
        requires
            old(self).wf(),
        ensures
            final(self).wf(),
            BluetoothManager::spec_state_monotone(old(self), final(self)),
            final(self).adapter == old(self).adapter,
            final(self).testing == old(self).testing,
            old(self).spec_adapter_absent() ==> (r matches Err(BluetoothError::AdapterError)
                && *final(self) == *old(self)),
            !old(self).spec_adapter_absent() && !old(self).adapter->0.powered ==> (r matches Err(
                BluetoothError::AdapterNotPowered,
            ) && *final(self) == *old(self)),
            old(self).spec_gate_ready() ==> {
                &&& ((uuid matches Some(u) && !old(self).spec_service_allowed(device_id@, u@))
                    <==> (r matches Err(BluetoothError::Security) && *final(self) == *old(self)))
                &&& (uuid is None || old(self).spec_service_allowed(device_id@, uuid->0@)) ==> {
                    &&& (r is Ok <==> final(self).cached_devices@.dom().contains(device_id@)
                        && exists|j: int|
                        spec_primary_selected(
                            final(self),
                            final(self).cached_devices@[device_id@],
                            uuid.deep_view(),
                            j,
                        ))
                    &&& (r matches Ok(v) ==> {
                        let d = final(self).cached_devices@[device_id@];
                        &&& v@.len() > 0
                        &&& forall|k: int|
                            0 <= k < v@.len() ==> spec_service_msg_from(
                                final(self),
                                d,
                                uuid.deep_view(),
                                #[trigger] v@[k],
                            )
                        &&& spec_primaries_reported(final(self), d, uuid.deep_view(), v@)
                    })
                    &&& (r is Err ==> (r matches Err(BluetoothError::NotFound)))
                }
            },
    {
        if let Err(e) = self.adapter_gate() {
            return Err(e);
        }
        if let Some(u) = &uuid {
            let allowed = match self.allowed_services.get(&device_id) {
                Some(set) => set.contains_ci(u),
                None => false,
            };
            if !allowed {
                return Err(BluetoothError::Security);
            }
        }
        let services = match &uuid {
            Some(u) => self.get_gatt_services_by_uuid(&device_id, u),
            None => self.get_and_cache_gatt_services(&device_id),
        };
        if services.len() == 0 {
            proof {
                if self.cached_devices@.dom().contains(device_id@) {
                    let d0 = self.cached_devices@[device_id@];
                    assert forall|j: int|
                        !spec_primary_selected(self, d0, uuid.deep_view(), j) by {
                        assert(!(exists|k: int| 0 <= k < services@.len() && services@[k] == j));
                    }
                }
            }
            return Err(BluetoothError::NotFound);
        }
        proof {
            assert(self.cached_devices@.dom().contains(device_id@));
        }
        let ghost d = self.cached_devices@[device_id@];
        let services_vec = self.collect_primary_service_msgs(
            &services,
            Ghost(d),
            Ghost(uuid.deep_view()),
        );
        if services_vec.len() == 0 {
            return Err(BluetoothError::NotFound);
        }
        Ok(services_vec)
    }

    /// Lists the services included by a service, optionally constrained to a
    /// UUID. Only adapter absence is rejected; the power state is not
    /// consulted.
    #[verifier::loop_isolation(false)]
    pub fn get_included_services(&mut self, service_id: String, uuid: Option<String>) -> (r:
        BluetoothResult<Vec<crate::messages::BluetoothServiceMsg>>)
        requires
            old(self).wf(),
        ensures
            final(self).wf(),
            BluetoothManager::spec_state_monotone(old(self), final(self)),
            final(self).adapter == old(self).adapter,
            final(self).testing == old(self).testing,
            old(self).spec_adapter_absent() ==> (r matches Err(BluetoothError::AdapterError)
                && *final(self) == *old(self)),
            !old(self).spec_adapter_absent() ==> {
                &&& !final(self).cached_services@.dom().contains(service_id@) ==> (r matches Err(
                    BluetoothError::NotFound,
                ))
                &&& final(self).cached_services@.dom().contains(service_id@) ==> {
                    let sv = final(self).cached_services@[service_id@] as int;
                    let incs = final(self).store.services@[sv].includes@;
                    &&& (r is Ok <==> exists|k: int|
                        0 <= k < incs.len() && (uuid matches Some(u) ==> spec_uuid_eq(
                            final(self).store.services@[(#[trigger] incs[k]) as int].uuid@,
                            u@,
                        )))
                    &&& (r matches Ok(v) ==> v@.len() > 0 && forall|k: int|
                        0 <= k < v@.len() ==> exists|k2: int|
                            0 <= k2 < incs.len() && (#[trigger] v@[k]).uuid@ == final(self).store.services@[incs[k2] as int].uuid@ && v@[k].is_primary == final(self).store.services@[incs[k2] as int].is_primary && v@[k].instance_id@
                                == final(self).store.services@[incs[k2] as int].id@ && (
                            uuid matches Some(u) ==> spec_uuid_eq(v@[k].uuid@, u@)))
                    &&& (r is Err ==> (r matches Err(BluetoothError::NotFound)))
                }
            },
    {
        if let Err(e) = self.adapter_present_check() {
            return Err(e);
        }
        let sv = match self.get_gatt_service(&service_id) {
            Some(sv) => sv,
            None => {
                return Err(BluetoothError::NotFound);
            },
        };
        let n = self.store.services[sv].includes.len();
        let mut services_vec: Vec<crate::messages::BluetoothServiceMsg> = Vec::new();
        let mut k: usize = 0;
        while k < n
            invariant
                n == self.store.services@[sv as int].includes@.len(),
                0 <= k <= n,
                forall|k3: int|
                    0 <= k3 < services_vec@.len() ==> exists|k2: int|
                        0 <= k2 < n && (#[trigger] services_vec@[k3]).uuid@
                            == self.store.services@[self.store.services@[sv as int].includes@[k2] as int].uuid@
                            && services_vec@[k3].is_primary
                            == self.store.services@[self.store.services@[sv as int].includes@[k2] as int].is_primary
                            && services_vec@[k3].instance_id@
                            == self.store.services@[self.store.services@[sv as int].includes@[k2] as int].id@
                            && (uuid matches Some(u) ==> spec_uuid_eq(services_vec@[k3].uuid@, u@)),
                services_vec@.len() == 0 && uuid is None ==> k == 0,
                services_vec@.len() == 0 ==> forall|k2: int|
                    0 <= k2 < k ==> (uuid matches Some(u) ==> !spec_uuid_eq(
                        self.store.services@[(#[trigger] self.store.services@[sv as int].includes@[k2]) as int].uuid@,
                        u@,
                    )),
            decreases n - k,
        {
            let inc = self.store.services[sv].includes[k];
            let keep = match &uuid {
                Some(u) => uuid_eq(&self.store.services[inc].uuid, u),
                None => true,
            };
            if keep {
                let ghost old_len = services_vec@.len();
                services_vec.push(
                    crate::messages::BluetoothServiceMsg {
                        uuid: self.store.services[inc].uuid.clone(),
                        is_primary: self.store.services[inc].is_primary,
                        instance_id: self.store.services[inc].id.clone(),
                    },
                );
                proof {
                    assert((services_vec@[old_len as int]).uuid@
                        == self.store.services@[self.store.services@[sv as int].includes@[k as int] as int].uuid@);
                }
            }
            k = k + 1;
        }
        if services_vec.len() == 0 {
            proof {
                let incs = self.store.services@[sv as int].includes@;
                assert forall|k2: int|
                    0 <= k2 < incs.len() implies !(uuid matches Some(u) ==> spec_uuid_eq(
                    self.store.services@[(#[trigger] incs[k2]) as int].uuid@,
                    u@,
                )) by {
                    assert(uuid is Some);
                }
            }
            return Err(BluetoothError::NotFound);
        }
        proof {
            let incs = self.store.services@[sv as int].includes@;
            let k2 = choose|k2: int|
                0 <= k2 < n && (#[trigger] services_vec@[0]).uuid@
                    == self.store.services@[self.store.services@[sv as int].includes@[k2] as int].uuid@
                    && services_vec@[0].is_primary
                    == self.store.services@[self.store.services@[sv as int].includes@[k2] as int].is_primary
                    && services_vec@[0].instance_id@
                    == self.store.services@[self.store.services@[sv as int].includes@[k2] as int].id@
                    && (uuid matches Some(u) ==> spec_uuid_eq(services_vec@[0].uuid@, u@));
            assert(0 <= k2 < incs.len() && (uuid matches Some(u) ==> spec_uuid_eq(
                self.store.services@[(incs[k2]) as int].uuid@,
                u@,
            )));
        }
        Ok(services_vec)
    }

    /// Lists the characteristics of a service, optionally constrained to a
    /// UUID, each with its translated property bit set.
    #[verifier::loop_isolation(false)]
    #[verifier::rlimit(100)]
    pub fn get_characteristics(&mut self, service_id: String, uuid: Option<String>) -> (r:
        BluetoothResult<Vec<crate::messages::BluetoothCharacteristicMsg>>)
        requires
            old(self).wf(),
        ensures
            final(self).wf(),
            BluetoothManager::spec_state_monotone(old(self), final(self)),
            final(self).adapter == old(self).adapter,
            final(self).testing == old(self).testing,
            old(self).spec_adapter_absent() ==> (r matches Err(BluetoothError::AdapterError)
                && *final(self) == *old(self)),
            !old(self).spec_adapter_absent() && !old(self).adapter->0.powered ==> (r matches Err(
                BluetoothError::AdapterNotPowered,
            ) && *final(self) == *old(self)),
            old(self).spec_gate_ready() ==> {
                &&& (r is Ok <==> final(self).cached_services@.dom().contains(service_id@)
                    && exists|j: int|
                    spec_characteristic_selected(
                        final(self),
                        final(self).cached_services@[service_id@],
                        uuid.deep_view(),
                        j,
                    ))
                &&& (r matches Ok(v) ==> {
                    let sv = final(self).cached_services@[service_id@];
                    &&& v@.len() > 0
                    &&& forall|k: int|
                        0 <= k < v@.len() ==> spec_characteristic_msg_from(
                            final(self),
                            sv,
                            uuid.deep_view(),
                            #[trigger] v@[k],
                        )
                    &&& spec_characteristics_reported(final(self), sv, uuid.deep_view(), v@)
                })
                &&& (r is Err ==> (r matches Err(BluetoothError::NotFound)))
            },
    {
        if let Err(e) = self.adapter_gate() {
            return Err(e);
        }
        let chars = match &uuid {
            Some(u) => self.get_gatt_characteristics_by_uuid(&service_id, u),
            None => self.get_and_cache_gatt_characteristics(&service_id),
        };
        let n = chars.len();
        if n == 0 {
            proof {
                if self.cached_services@.dom().contains(service_id@) {
                    let sv0 = self.cached_services@[service_id@];
                    assert forall|j: int|
                        !spec_characteristic_selected(self, sv0, uuid.deep_view(), j) by {
                        assert(!(exists|k: int| 0 <= k < chars@.len() && chars@[k] == j));
                    }
                }
            }
            return Err(BluetoothError::NotFound);
        }
        proof {
            assert(self.cached_services@.dom().contains(service_id@));
        }
        let ghost sv = self.cached_services@[service_id@];
        let mut characteristics_vec: Vec<crate::messages::BluetoothCharacteristicMsg> = Vec::new();
        let mut i: usize = 0;
        while i < n
            invariant
                n == chars@.len(),
                0 <= i <= n,
                characteristics_vec@.len() == i,
                forall|k: int|
                    0 <= k < n ==> (#[trigger] chars@[k]) < self.store.characteristics@.len()
                        && self.store.characteristics@[chars@[k] as int].service == sv && (
                    uuid matches Some(u) ==> spec_uuid_eq(
                        self.store.characteristics@[chars@[k] as int].uuid@,
                        u@,
                    )),
                forall|k: int|
                    0 <= k < i ==> spec_characteristic_msg_from(
                        self,
                        sv,
                        uuid.deep_view(),
                        #[trigger] characteristics_vec@[k],
                    ),
                forall|k: int|
                    0 <= k < i ==> (#[trigger] characteristics_vec@[k]).instance_id@
                        == self.store.characteristics@[chars@[k] as int].id@,
            decreases n - i,
        {
            let c = chars[i];
            let properties = crate::properties::properties_from_flags(
                &self.store.characteristics[c].flags,
            );
            let ghost old_len = characteristics_vec@.len();
            characteristics_vec.push(
                crate::messages::BluetoothCharacteristicMsg {
                    uuid: self.store.characteristics[c].uuid.clone(),
                    instance_id: self.store.characteristics[c].id.clone(),
                    broadcast: properties.broadcast,
                    read: properties.read,
                    write_without_response: properties.write_without_response,
                    write: properties.write,
                    notify: properties.notify,
                    indicate: properties.indicate,
                    authenticated_signed_writes: properties.authenticated_signed_writes,
                    reliable_write: properties.reliable_write,
                    writable_auxiliaries: properties.writable_auxiliaries,
                },
            );
            proof {
                assert(spec_characteristic_selected(self, sv, uuid.deep_view(), chars@[i as int] as int));
                assert(spec_characteristic_msg_from(
                    self,
                    sv,
                    uuid.deep_view(),
                    characteristics_vec@[old_len as int],
                ));
            }
            i = i + 1;
        }
        proof {
            assert(spec_characteristic_selected(self, sv, uuid.deep_view(), chars@[0] as int));
            assert forall|j: int|
                #[trigger] spec_characteristic_selected(self, sv, uuid.deep_view(), j) implies exists|
                k: int,
            |
                0 <= k < characteristics_vec@.len() && (
                #[trigger] characteristics_vec@[k]).instance_id@
                    == self.store.characteristics@[j].id@ by {
                let k2 = choose|k2: int| 0 <= k2 < chars@.len() && chars@[k2] == j;
                assert(characteristics_vec@[k2].instance_id@
                    == self.store.characteristics@[chars@[k2] as int].id@);
            }
            assert(spec_characteristics_reported(self, sv, uuid.deep_view(), characteristics_vec@));
        }
        Ok(characteristics_vec)
    }

    /// Lists the descriptors of a characteristic, optionally constrained to
    /// a UUID.
    #[verifier::loop_isolation(false)]
    #[verifier::rlimit(100)]
    pub fn get_descriptors(&mut self, characteristic_id: String, uuid: Option<String>) -> (r:
        BluetoothResult<Vec<crate::messages::BluetoothDescriptorMsg>>)
        requires
            old(self).wf(),
        ensures
            final(self).wf(),
            BluetoothManager::spec_state_monotone(old(self), final(self)),
            final(self).adapter == old(self).adapter,
            final(self).testing == old(self).testing,
            old(self).spec_adapter_absent() ==> (r matches Err(BluetoothError::AdapterError)
                && *final(self) == *old(self)),
            !old(self).spec_adapter_absent() && !old(self).adapter->0.powered ==> (r matches Err(
                BluetoothError::AdapterNotPowered,
            ) && *final(self) == *old(self)),
            old(self).spec_gate_ready() ==> {
                &&& (r is Ok <==> final(self).cached_characteristics@.dom().contains(
                    characteristic_id@,
                ) && exists|j: int|
                    spec_descriptor_selected(
                        final(self),
                        final(self).cached_characteristics@[characteristic_id@],
                        uuid.deep_view(),
                        j,
                    ))
                &&& (r matches Ok(v) ==> {
                    let c = final(self).cached_characteristics@[characteristic_id@];
                    &&& v@.len() > 0
                    &&& forall|k: int|
                        0 <= k < v@.len() ==> spec_descriptor_msg_from(
                            final(self),
                            c,
                            uuid.deep_view(),
                            #[trigger] v@[k],
                        )
                    &&& spec_descriptors_reported(final(self), c, uuid.deep_view(), v@)
                })
                &&& (r is Err ==> (r matches Err(BluetoothError::NotFound)))
            },
    {
        if let Err(e) = self.adapter_gate() {
            return Err(e);
        }
        let descs = match &uuid {
            Some(u) => self.get_gatt_descriptors_by_uuid(&characteristic_id, u),
            None => self.get_and_cache_gatt_descriptors(&characteristic_id),
        };
        let n = descs.len();
        if n == 0 {
            proof {
                if self.cached_characteristics@.dom().contains(characteristic_id@) {
                    let c0 = self.cached_characteristics@[characteristic_id@];
                    assert forall|j: int|
                        !spec_descriptor_selected(self, c0, uuid.deep_view(), j) by {
                        assert(!(exists|k: int| 0 <= k < descs@.len() && descs@[k] == j));
                    }
                }
            }
            return Err(BluetoothError::NotFound);
        }
        proof {
            assert(self.cached_characteristics@.dom().contains(characteristic_id@));
        }
        let ghost c = self.cached_characteristics@[characteristic_id@];
        let mut descriptors_vec: Vec<crate::messages::BluetoothDescriptorMsg> = Vec::new();
        let mut i: usize = 0;
        while i < n
            invariant
                n == descs@.len(),
                0 <= i <= n,
                descriptors_vec@.len() == i,
                forall|k: int|
                    0 <= k < n ==> (#[trigger] descs@[k]) < self.store.descriptors@.len()
                        && self.store.descriptors@[descs@[k] as int].characteristic == c && (
                    uuid matches Some(u) ==> spec_uuid_eq(
                        self.store.descriptors@[descs@[k] as int].uuid@,
                        u@,
                    )),
                forall|k: int|
                    0 <= k < i ==> spec_descriptor_msg_from(
                        self,
                        c,
                        uuid.deep_view(),
                        #[trigger] descriptors_vec@[k],
                    ),
                forall|k: int|
                    0 <= k < i ==> (#[trigger] descriptors_vec@[k]).instance_id@
                        == self.store.descriptors@[descs@[k] as int].id@,
            decreases n - i,
        {
            let d = descs[i];
            let ghost old_len = descriptors_vec@.len();
            descriptors_vec.push(
                crate::messages::BluetoothDescriptorMsg {
                    uuid: self.store.descriptors[d].uuid.clone(),
                    instance_id: self.store.descriptors[d].id.clone(),
                },
            );
            proof {
                assert(spec_descriptor_selected(self, c, uuid.deep_view(), descs@[i as int] as int));
                assert(spec_descriptor_msg_from(
                    self,
                    c,
                    uuid.deep_view(),
                    descriptors_vec@[old_len as int],
                ));
            }
            i = i + 1;
        }
        proof {
            assert(spec_descriptor_selected(self, c, uuid.deep_view(), descs@[0] as int));
            assert forall|j: int|
                #[trigger] spec_descriptor_selected(self, c, uuid.deep_view(), j) implies exists|
                k: int,
            |
                0 <= k < descriptors_vec@.len() && (#[trigger] descriptors_vec@[k]).instance_id@
                    == self.store.descriptors@[j].id@ by {
                let k2 = choose|k2: int| 0 <= k2 < descs@.len() && descs@[k2] == j;
                assert(descriptors_vec@[k2].instance_id@
                    == self.store.descriptors@[descs@[k2] as int].id@);
            }
            assert(spec_descriptors_reported(self, c, uuid.deep_view(), descriptors_vec@));
        }
        Ok(descriptors_vec)
    }

    /// The request-device transaction: run a discovery session, register
    /// every newly seen device, match the cached devices against the filter
    /// sequence, accept the first match, union the request's service UUIDs
    /// into the device's allowed set, and reply with the device message. On a
    /// powered adapter the discovery session always starts; the discovery
    /// window elapses driver-side before the session is stopped. The chooser
    /// here is the accept-first-candidate policy; a host that asks the user
    /// to choose among candidates stands outside the broker.
    #[verifier::loop_isolation(false)]
    #[verifier::rlimit(60)]
    pub fn request_device(&mut self, options: &crate::scanfilter::RequestDeviceoptions) -> (r:
        BluetoothResult<crate::messages::BluetoothDeviceMsg>)
        requires
            old(self).wf(),
        ensures
            final(self).wf(),
            BluetoothManager::spec_state_monotone(old(self), final(self)),
            final(self).adapter == old(self).adapter,
            final(self).testing == old(self).testing,
            final(self).store == old(self).store,
            old(self).spec_adapter_absent() ==> (r matches Err(BluetoothError::AdapterError)
                && *final(self) == *old(self)),
            !old(self).spec_adapter_absent() && !old(self).adapter->0.powered ==> (r matches Err(
                BluetoothError::AdapterNotPowered,
            ) && *final(self) == *old(self)),
            old(self).spec_gate_ready() ==> {
                &&& forall|i: int|
                    0 <= i < old(self).adapter->0.devices@.len() ==> final(self).address_to_id@.dom().contains(
                        old(self).store.devices@[#[trigger] old(self).adapter->0.devices@[i] as int].address@,
                    )
                &&& (r is Ok <==> exists|x: usize|
                    spec_is_cached_device_index(final(self), x) && spec_matches_filter_seq(
                        &final(self).store.devices@[x as int],
                        options.spec_filters(),
                    ))
                &&& (r matches Ok(msg) ==> {
                    let d = final(self).cached_devices@[msg.id@] as int;
                    &&& final(self).cached_devices@.dom().contains(msg.id@)
                    &&& spec_matches_filter_seq(
                        &final(self).store.devices@[d],
                        options.spec_filters(),
                    )
                    &&& final(self).address_to_id@.dom().contains(
                        final(self).store.devices@[d].address@,
                    )
                    &&& final(self).address_to_id@[final(self).store.devices@[d].address@]@
                        == msg.id@
                    &&& msg.name == final(self).store.devices@[d].name
                    &&& msg.appearance == final(self).store.devices@[d].appearance
                    &&& msg.tx_power == final(self).store.devices@[d].tx_power
                    &&& msg.rssi == final(self).store.devices@[d].rssi
                    &&& final(self).allowed_services@.dom().contains(msg.id@)
                    &&& final(self).allowed_services@[msg.id@]@ =~= (
                    if old(self).allowed_services@.dom().contains(msg.id@) {
                        old(self).allowed_services@[msg.id@]@
                    } else {
                        Set::<Seq<char>>::empty()
                    }).union(
                        crate::scanfilter::spec_services_of_request(
                            options.spec_filters(),
                            options.spec_optional_services(),
                        ),
                    )
                })
                &&& (r is Err ==> (r matches Err(BluetoothError::NotFound)))
                &&& (r is Err ==> BluetoothManager::spec_allowed_preserved(old(self), final(self))
                    && forall|k: Seq<char>|
                    #[trigger] final(self).allowed_services@.dom().contains(k) && !old(self).allowed_services@.dom().contains(k)
                        ==> final(self).allowed_services@[k]@ == Set::<Seq<char>>::empty())
            },
    {
        if let Err(e) = self.adapter_gate() {
            return Err(e);
        }
        let devices = self.get_and_cache_devices();
        let ghost mid = *self;
        let n = devices.len();
        proof {
            assert forall|k: int| 0 <= k < n implies (#[trigger] devices@[k])
                < self.store.devices@.len() by {
                assert(spec_is_cached_device_index(self, devices@[k]));
                let id = choose|id: Seq<char>|
                    #[trigger] self.cached_devices@.dom().contains(id) && self.cached_devices@[id]
                        == devices@[k];
            }
        }
        let mut found: Option<usize> = None;
        let mut i: usize = 0;
        while i < n
            invariant
                n == devices@.len(),
                0 <= i <= n,
                found is None ==> forall|k: int|
                    0 <= k < i ==> !spec_matches_filter_seq(
                        &self.store.devices@[(#[trigger] devices@[k]) as int],
                        options.spec_filters(),
                    ),
                found matches Some(x) ==> spec_is_cached_device_index(self, x)
                    && x < self.store.devices@.len() && spec_matches_filter_seq(
                    &self.store.devices@[x as int],
                    options.spec_filters(),
                ),
            decreases n - i,
        {
            let idx = devices[i];
            if found.is_none() && matches_filters(&self.store.devices[idx], options.get_filters()) {
                found = Some(idx);
                proof {
                    assert(spec_is_cached_device_index(self, idx));
                }
            }
            i = i + 1;
        }
        let m0 = match found {
            Some(x) => x,
            None => {
                proof {
                    assert forall|x: usize|
                        !(spec_is_cached_device_index(self, x) && spec_matches_filter_seq(
                            &self.store.devices@[x as int],
                            options.spec_filters(),
                        )) by {
                        if spec_is_cached_device_index(self, x) {
                            let id = choose|id: Seq<char>|
                                #[trigger] self.cached_devices@.dom().contains(id)
                                    && self.cached_devices@[id] == x;
                            let k = choose|k: int|
                                0 <= k < devices@.len() && #[trigger] devices@[k]
                                    == self.cached_devices@[id];
                            assert(devices@[k] == x);
                            assert(!spec_matches_filter_seq(
                                &self.store.devices@[(devices@[k]) as int],
                                options.spec_filters(),
                            ));
                        }
                    }
                }
                return Err(BluetoothError::NotFound);
            },
        };
        let address = self.store.devices[m0].address.clone();
        proof {
            assert(spec_is_cached_device_index(self, m0));
            let id0 = choose|id: Seq<char>|
                #[trigger] self.cached_devices@.dom().contains(id) && self.cached_devices@[id]
                    == m0;
            assert(self.address_to_id@.dom().contains(
                self.store.devices@[self.cached_devices@[id0] as int].address@,
            ));
            assert(self.address_to_id@.dom().contains(address@));
        }
        let device_id = match self.address_to_id.get(&address) {
            Some(id) => id.clone(),
            None => {
                return Err(BluetoothError::NotFound);
            },
        };
        proof {
            // the id bound to the chosen address names the chosen device
            assert(spec_is_cached_device_index(self, m0));
            let id0 = choose|id: Seq<char>|
                #[trigger] self.cached_devices@.dom().contains(id) && self.cached_devices@[id]
                    == m0;
            assert(self.address_to_id@[self.store.devices@[self.cached_devices@[id0] as int].address@]@
                == id0);
            assert(device_id@ == id0);
            assert(self.cached_devices@[device_id@] == m0);
        }
        let ghost base = if mid.allowed_services@.dom().contains(device_id@) {
            mid.allowed_services@[device_id@]@
        } else {
            Set::<Seq<char>>::empty()
        };
        let mut services = options.get_services_set();
        if let Some(existing) = self.allowed_services.get(&device_id) {
            services.insert_all(existing);
        }
        proof {
            assert(services@ =~= crate::scanfilter::spec_services_of_request(
                options.spec_filters(),
                options.spec_optional_services(),
            ).union(base));
        }
        self.allowed_services.insert(device_id.clone(), services);
        proof {
            assert(self.cached_devices@.dom().contains(device_id@));
            assert forall|k: Seq<char>| #[trigger] mid.allowed_services@.dom().contains(
                k,
            ) implies self.allowed_services@.dom().contains(k) && mid.allowed_services@[k]@.subset_of(
                self.allowed_services@[k]@,
            ) by {
                if k != device_id@ {
                    assert(self.allowed_services@[k] == mid.allowed_services@[k]);
                }
            }
            assert(BluetoothManager::spec_state_monotone(&mid, self));
            lemma_state_monotone_trans(&old(self), &mid, self);
        }
        let ghost mid2 = *self;
        match self.get_device(&device_id) {
            Some(d) => {
                proof {
                    assert(d == m0);
                    lemma_state_monotone_trans(&old(self), &mid2, self);
                    assert(spec_is_cached_device_index(self, m0));
                    assert(mid2.allowed_services@.dom().contains(device_id@));
                    assert(self.allowed_services@[device_id@] == mid2.allowed_services@[device_id@]);
                    assert(self.allowed_services@[device_id@]@ =~= (
                    if old(self).allowed_services@.dom().contains(device_id@) {
                        old(self).allowed_services@[device_id@]@
                    } else {
                        Set::<Seq<char>>::empty()
                    }).union(
                        crate::scanfilter::spec_services_of_request(
                            options.spec_filters(),
                            options.spec_optional_services(),
                        ),
                    ));
                }
                let msg = crate::messages::BluetoothDeviceMsg {
                    id: device_id,
                    name: self.store.devices[d].name.clone(),
                    appearance: self.store.devices[d].appearance,
                    tx_power: self.store.devices[d].tx_power,
                    rssi: self.store.devices[d].rssi,
                };
                Ok(msg)
            },
            None => Err(BluetoothError::NotFound),
        }
    }


    /// A mock device record as a topology row states it: the given address,
    /// name, connectable bit and advertised UUIDs, not connected, with no
    /// appearance, transmission power or signal strength.
    pub open spec fn spec_mock_device(
        d: &BluetoothDevice,
        address: Seq<char>,
        name: Seq<char>,
        connectable: bool,
        uuids: Seq<Seq<char>>,
    ) -> bool {
        &&& d.address@ == address
        &&& (d.name matches Some(n) && n@ == name)
        &&& d.connectable == connectable
        &&& !d.connected
        &&& d.uuids@.map_values(|s: String| s@) =~= uuids
        &&& d.appearance is None
        &&& d.tx_power is None
        &&& d.rssi is None
    }

    /// A mock primary service record of the given device and UUID, with no
    /// included services.
    pub open spec fn spec_mock_service(
        s: &crate::adapter::BluetoothGATTService,
        device: int,
        uuid: Seq<char>,
    ) -> bool {
        &&& s.device as int == device
        &&& s.uuid@ == uuid
        &&& s.is_primary
        &&& s.includes@.len() == 0
    }

    /// A mock characteristic record of the given service, UUID and value,
    /// with no driver flags.
    pub open spec fn spec_mock_characteristic(
        c: &crate::adapter::BluetoothGATTCharacteristic,
        service: int,
        uuid: Seq<char>,
        value: Seq<u8>,
    ) -> bool {
        &&& c.service as int == service
        &&& c.uuid@ == uuid
        &&& c.flags@.len() == 0
        &&& c.value@ =~= value
    }

    /// A mock descriptor record of the given characteristic, UUID and value.
    pub open spec fn spec_mock_descriptor(
        x: &crate::adapter::BluetoothGATTDescriptor,
        characteristic: int,
        uuid: Seq<char>,
        value: Seq<u8>,
    ) -> bool {
        &&& x.characteristic as int == characteristic
        &&& x.uuid@ == uuid
        &&& x.value@ =~= value
    }

    /// Whether a data-set name is one of the recognized mock topologies.
    pub open spec fn spec_known_data_set(name: Seq<char>) -> bool {
        ||| name == "NotPresentAdapter"@
        ||| name == "NotPoweredAdapter"@
        ||| name == "EmptyAdapter"@
        ||| name == "FailStartDiscoveryAdapter"@
        ||| name == "GlucoseHeartRateAdapter"@
        ||| name == "UnicodeDeviceAdapter"@
        ||| name == "BlacklistedServicesAdapter"@
        ||| name == "MissingCharacteristicGenericAccessAdapter"@
        ||| name == "MissingDescriptorGenericAccessAdapter"@
        ||| name == "ExcludedForWritesCharacteristicAdapter"@
        ||| name == "BlacklistedCharacteristicsAdapter"@
        ||| name == "CompletedAdapter"@
    }

    /// The Test request: sets the process-wide testing flag, rebuilds the
    /// adapter from the named mock topology, and replies `true`; an unknown
    /// name is rejected with a `Type` error and leaves a fresh blank adapter.
    /// The caches are left as they are: driver records live for the broker's
    /// lifetime. For each recognized name the contract pins the resulting
    /// adapter and graph to its row of the topology table.
    #[verifier::rlimit(100)]
    pub fn test(&mut self, data_set_name: String) -> (r: BluetoothResult<bool>)
        requires
            old(self).wf(),
        ensures
            final(self).wf(),
            BluetoothManager::spec_state_monotone(old(self), final(self)),
            final(self).testing,
            final(self).adapter is Some,
            final(self).address_to_id == old(self).address_to_id,
            final(self).cached_devices == old(self).cached_devices,
            final(self).cached_services == old(self).cached_services,
            final(self).cached_characteristics == old(self).cached_characteristics,
            final(self).cached_descriptors == old(self).cached_descriptors,
            final(self).allowed_services == old(self).allowed_services,
            (r matches Ok(b) && b) <==> BluetoothManager::spec_known_data_set(data_set_name@),
            !BluetoothManager::spec_known_data_set(data_set_name@) ==> ({
                let a = final(self).adapter->0;
                &&& r matches Err(e) && e matches BluetoothError::Type(m) && m@
                    == "Wrong data set name was provided"@
                &&& a.present && !a.powered && !a.discoverable
                &&& a.devices@.len() == 0
                &&& final(self).store == old(self).store
            }),
            data_set_name@ == "NotPresentAdapter"@ ==> ({
                let st = final(self).store;
                let a = final(self).adapter->0;
                let bd = old(self).store.devices@.len() as int;
                &&& a.present == false
                &&& a.powered == true
                &&& a.discoverable == true
                &&& a.devices@.len() == 0
                &&& st.devices@.len() == bd + 0
                &&& st.services@.len() == old(self).store.services@.len() + 0
                &&& st.characteristics@.len() == old(self).store.characteristics@.len() + 0
                &&& st.descriptors@.len() == old(self).store.descriptors@.len() + 0
            }),
            data_set_name@ == "NotPoweredAdapter"@ ==> ({
                let st = final(self).store;
                let a = final(self).adapter->0;
                let bd = old(self).store.devices@.len() as int;
                &&& a.present == true
                &&& a.powered == false
                &&& a.discoverable == true
                &&& a.devices@.len() == 0
                &&& st.devices@.len() == bd + 0
                &&& st.services@.len() == old(self).store.services@.len() + 0
                &&& st.characteristics@.len() == old(self).store.characteristics@.len() + 0
                &&& st.descriptors@.len() == old(self).store.descriptors@.len() + 0
            }),
            data_set_name@ == "EmptyAdapter"@ ==> ({
                let st = final(self).store;
                let a = final(self).adapter->0;
                let bd = old(self).store.devices@.len() as int;
                &&& a.present == true
                &&& a.powered == true
                &&& a.discoverable == true
                &&& a.devices@.len() == 0
                &&& st.devices@.len() == bd + 0
                &&& st.services@.len() == old(self).store.services@.len() + 0
                &&& st.characteristics@.len() == old(self).store.characteristics@.len() + 0
                &&& st.descriptors@.len() == old(self).store.descriptors@.len() + 0
            }),
            data_set_name@ == "FailStartDiscoveryAdapter"@ ==> ({
                let st = final(self).store;
                let a = final(self).adapter->0;
                let bd = old(self).store.devices@.len() as int;
                &&& a.present == true
                &&& a.powered == false
                &&& a.discoverable == true
                &&& a.devices@.len() == 0
                &&& st.devices@.len() == bd + 0
                &&& st.services@.len() == old(self).store.services@.len() + 0
                &&& st.characteristics@.len() == old(self).store.characteristics@.len() + 0
                &&& st.descriptors@.len() == old(self).store.descriptors@.len() + 0
            }),
            data_set_name@ == "GlucoseHeartRateAdapter"@ ==> ({
                let st = final(self).store;
                let a = final(self).adapter->0;
                let bd = old(self).store.devices@.len() as int;
                &&& a.present == true
                &&& a.powered == true
                &&& a.discoverable == true
                &&& a.devices@.len() == 2
                &&& a.devices@[0] as int == bd + 0
                &&& a.devices@[1] as int == bd + 1
                &&& st.devices@.len() == bd + 2
                &&& st.services@.len() == old(self).store.services@.len() + 0
                &&& st.characteristics@.len() == old(self).store.characteristics@.len() + 0
                &&& st.descriptors@.len() == old(self).store.descriptors@.len() + 0
                &&& Self::spec_mock_device(&st.devices@[bd + 0], "00:00:00:00:00:01"@, "Glucose Device"@, false, seq!["00001800-0000-1000-8000-00805f9b34fb"@, "00001808-0000-1000-8000-00805f9b34fb"@, "00001804-0000-1000-8000-00805f9b34fb"@])
                &&& Self::spec_mock_device(&st.devices@[bd + 1], "00:00:00:00:00:02"@, "Heart Rate Device"@, true, seq!["00001800-0000-1000-8000-00805f9b34fb"@, "0000180d-0000-1000-8000-00805f9b34fb"@])
            }),
            data_set_name@ == "UnicodeDeviceAdapter"@ ==> ({
                let st = final(self).store;
                let a = final(self).adapter->0;
                let bd = old(self).store.devices@.len() as int;
                &&& a.present == true
                &&& a.powered == true
                &&& a.discoverable == true
                &&& a.devices@.len() == 1
                &&& a.devices@[0] as int == bd + 0
                &&& st.devices@.len() == bd + 1
                &&& st.services@.len() == old(self).store.services@.len() + 0
                &&& st.characteristics@.len() == old(self).store.characteristics@.len() + 0
                &&& st.descriptors@.len() == old(self).store.descriptors@.len() + 0
                &&& Self::spec_mock_device(&st.devices@[bd + 0], "00:00:00:00:00:03"@, "\u{2764}\u{2764}\u{2764}\u{2764}\u{2764}\u{2764}\u{2764}\u{2764}\u{2764}"@, false, Seq::<Seq<char>>::empty())
            }),
            data_set_name@ == "BlacklistedServicesAdapter"@ ==> ({
                let st = final(self).store;
                let a = final(self).adapter->0;
                let bd = old(self).store.devices@.len() as int;
                let bs = old(self).store.services@.len() as int;
                &&& a.present == true
                &&& a.powered == true
                &&& a.discoverable == true
                &&& a.devices@.len() == 1
                &&& a.devices@[0] as int == bd + 0
                &&& st.devices@.len() == bd + 1
                &&& st.services@.len() == old(self).store.services@.len() + 3
                &&& st.characteristics@.len() == old(self).store.characteristics@.len() + 0
                &&& st.descriptors@.len() == old(self).store.descriptors@.len() + 0
                &&& Self::spec_mock_device(&st.devices@[bd + 0], "00:00:00:00:00:04"@, "Mock Device"@, true, seq!["00001812-0000-1000-8000-00805f9b34fb"@, "00001530-1212-efde-1523-785feabcd123"@, "f000ffc0-0451-4000-b000-000000000000"@])
                &&& Self::spec_mock_service(&st.services@[bs + 0], bd, "00001812-0000-1000-8000-00805f9b34fb"@)
                &&& Self::spec_mock_service(&st.services@[bs + 1], bd, "00001530-1212-efde-1523-785feabcd123"@)
                &&& Self::spec_mock_service(&st.services@[bs + 2], bd, "f000ffc0-0451-4000-b000-000000000000"@)
            }),
            data_set_name@ == "MissingCharacteristicGenericAccessAdapter"@ ==> ({
                let st = final(self).store;
                let a = final(self).adapter->0;
                let bd = old(self).store.devices@.len() as int;
                let bs = old(self).store.services@.len() as int;
                &&& a.present == true
                &&& a.powered == true
                &&& a.discoverable == true
                &&& a.devices@.len() == 1
                &&& a.devices@[0] as int == bd + 0
                &&& st.devices@.len() == bd + 1
                &&& st.services@.len() == old(self).store.services@.len() + 2
                &&& st.characteristics@.len() == old(self).store.characteristics@.len() + 0
                &&& st.descriptors@.len() == old(self).store.descriptors@.len() + 0
                &&& Self::spec_mock_device(&st.devices@[bd + 0], "00:00:00:00:00:05"@, "Heart Rate Device"@, true, seq!["00001800-0000-1000-8000-00805f9b34fb"@, "0000180d-0000-1000-8000-00805f9b34fb"@])
                &&& Self::spec_mock_service(&st.services@[bs + 0], bd, "00001800-0000-1000-8000-00805f9b34fb"@)
                &&& Self::spec_mock_service(&st.services@[bs + 1], bd, "0000180d-0000-1000-8000-00805f9b34fb"@)
            }),
            data_set_name@ == "MissingDescriptorGenericAccessAdapter"@ ==> ({
                let st = final(self).store;
                let a = final(self).adapter->0;
                let bd = old(self).store.devices@.len() as int;
                let bs = old(self).store.services@.len() as int;
                let bc = old(self).store.characteristics@.len() as int;
                &&& a.present == true
                &&& a.powered == true
                &&& a.discoverable == true
                &&& a.devices@.len() == 1
                &&& a.devices@[0] as int == bd + 0
                &&& st.devices@.len() == bd + 1
                &&& st.services@.len() == old(self).store.services@.len() + 2
                &&& st.characteristics@.len() == old(self).store.characteristics@.len() + 5
                &&& st.descriptors@.len() == old(self).store.descriptors@.len() + 0
                &&& Self::spec_mock_device(&st.devices@[bd + 0], "00:00:00:00:00:06"@, "Heart Rate Device"@, true, seq!["00001800-0000-1000-8000-00805f9b34fb"@, "0000180d-0000-1000-8000-00805f9b34fb"@])
                &&& Self::spec_mock_service(&st.services@[bs + 0], bd, "00001800-0000-1000-8000-00805f9b34fb"@)
                &&& Self::spec_mock_service(&st.services@[bs + 1], bd, "0000180d-0000-1000-8000-00805f9b34fb"@)
                &&& Self::spec_mock_characteristic(&st.characteristics@[bc + 0], bs + 0, "00002a00-0000-1000-8000-00805f9b34fb"@, seq![1u8])
                &&& Self::spec_mock_characteristic(&st.characteristics@[bc + 1], bs + 0, "00002a02-0000-1000-8000-00805f9b34fb"@, seq![2u8])
                &&& Self::spec_mock_characteristic(&st.characteristics@[bc + 2], bs + 1, "00002a37-0000-1000-8000-00805f9b34fb"@, seq![3u8])
                &&& Self::spec_mock_characteristic(&st.characteristics@[bc + 3], bs + 1, "00002a38-0000-1000-8000-00805f9b34fb"@, seq![4u8])
                &&& Self::spec_mock_characteristic(&st.characteristics@[bc + 4], bs + 1, "00002a38-0000-1000-8000-00805f9b34fb"@, seq![5u8])
            }),
            data_set_name@ == "ExcludedForWritesCharacteristicAdapter"@ ==> ({
                let st = final(self).store;
                let a = final(self).adapter->0;
                let bd = old(self).store.devices@.len() as int;
                let bs = old(self).store.services@.len() as int;
                let bc = old(self).store.characteristics@.len() as int;
                &&& a.present == true
                &&& a.powered == true
                &&& a.discoverable == true
                &&& a.devices@.len() == 1
                &&& a.devices@[0] as int == bd + 0
                &&& st.devices@.len() == bd + 1
                &&& st.services@.len() == old(self).store.services@.len() + 1
                &&& st.characteristics@.len() == old(self).store.characteristics@.len() + 1
                &&& st.descriptors@.len() == old(self).store.descriptors@.len() + 0
                &&& Self::spec_mock_device(&st.devices@[bd + 0], "00:00:00:00:00:07"@, "Mock Device"@, true, seq!["00001800-0000-1000-8000-00805f9b34fb"@])
                &&& Self::spec_mock_service(&st.services@[bs + 0], bd, "00001800-0000-1000-8000-00805f9b34fb"@)
                &&& Self::spec_mock_characteristic(&st.characteristics@[bc + 0], bs + 0, "00002a02-0000-1000-8000-00805f9b34fb"@, seq![8u8])
            }),
            data_set_name@ == "BlacklistedCharacteristicsAdapter"@ ==> ({
                let st = final(self).store;
                let a = final(self).adapter->0;
                let bd = old(self).store.devices@.len() as int;
                let bs = old(self).store.services@.len() as int;
                let bc = old(self).store.characteristics@.len() as int;
                &&& a.present == true
                &&& a.powered == true
                &&& a.discoverable == true
                &&& a.devices@.len() == 1
                &&& a.devices@[0] as int == bd + 0
                &&& st.devices@.len() == bd + 1
                &&& st.services@.len() == old(self).store.services@.len() + 1
                &&& st.characteristics@.len() == old(self).store.characteristics@.len() + 2
                &&& st.descriptors@.len() == old(self).store.descriptors@.len() + 0
                &&& Self::spec_mock_device(&st.devices@[bd + 0], "00:00:00:00:00:08"@, "Mock Device"@, true, seq!["00001800-0000-1000-8000-00805f9b34fb"@])
                &&& Self::spec_mock_service(&st.services@[bs + 0], bd, "00001800-0000-1000-8000-00805f9b34fb"@)
                &&& Self::spec_mock_characteristic(&st.characteristics@[bc + 0], bs + 0, "00002a03-0000-1000-8000-00805f9b34fb"@, seq![6u8])
                &&& Self::spec_mock_characteristic(&st.characteristics@[bc + 1], bs + 0, "00002a25-0000-1000-8000-00805f9b34fb"@, seq![7u8])
            }),
            data_set_name@ == "CompletedAdapter"@ ==> ({
                let st = final(self).store;
                let a = final(self).adapter->0;
                let bd = old(self).store.devices@.len() as int;
                let bs = old(self).store.services@.len() as int;
                let bc = old(self).store.characteristics@.len() as int;
                let bx = old(self).store.descriptors@.len() as int;
                &&& a.present == true
                &&& a.powered == true
                &&& a.discoverable == true
                &&& a.devices@.len() == 1
                &&& a.devices@[0] as int == bd + 0
                &&& st.devices@.len() == bd + 1
                &&& st.services@.len() == old(self).store.services@.len() + 2
                &&& st.characteristics@.len() == old(self).store.characteristics@.len() + 5
                &&& st.descriptors@.len() == old(self).store.descriptors@.len() + 2
                &&& Self::spec_mock_device(&st.devices@[bd + 0], "00:00:00:00:00:09"@, "Heart Rate Device"@, true, seq!["00001800-0000-1000-8000-00805f9b34fb"@, "0000180d-0000-1000-8000-00805f9b34fb"@])
                &&& Self::spec_mock_service(&st.services@[bs + 0], bd, "00001800-0000-1000-8000-00805f9b34fb"@)
                &&& Self::spec_mock_service(&st.services@[bs + 1], bd, "0000180d-0000-1000-8000-00805f9b34fb"@)
                &&& Self::spec_mock_characteristic(&st.characteristics@[bc + 0], bs + 0, "00002A00-0000-1000-8000-00805f9b34fb"@, seq![9u8])
                &&& Self::spec_mock_characteristic(&st.characteristics@[bc + 1], bs + 0, "00002A02-0000-1000-8000-00805f9b34fb"@, seq![10u8])
                &&& Self::spec_mock_characteristic(&st.characteristics@[bc + 2], bs + 1, "00002a37-0000-1000-8000-00805f9b34fb"@, seq![11u8])
                &&& Self::spec_mock_characteristic(&st.characteristics@[bc + 3], bs + 1, "00002a38-0000-1000-8000-00805f9b34fb"@, seq![12u8])
                &&& Self::spec_mock_characteristic(&st.characteristics@[bc + 4], bs + 1, "00002a38-0000-1000-8000-00805f9b34fb"@, seq![13u8])
                &&& Self::spec_mock_descriptor(&st.descriptors@[bx + 0], bc + 2, "00002901-0000-1000-8000-00805f9b34fb"@, seq![14u8])
                &&& Self::spec_mock_descriptor(&st.descriptors@[bx + 1], bc + 3, "00002901-0000-1000-8000-00805f9b34fb"@, seq![15u8])
            }),
    {
        proof {
            reveal_strlit("NotPresentAdapter");
            reveal_strlit("NotPoweredAdapter");
            reveal_strlit("EmptyAdapter");
            reveal_strlit("FailStartDiscoveryAdapter");
            reveal_strlit("GlucoseHeartRateAdapter");
            reveal_strlit("UnicodeDeviceAdapter");
            reveal_strlit("BlacklistedServicesAdapter");
            reveal_strlit("MissingCharacteristicGenericAccessAdapter");
            reveal_strlit("MissingDescriptorGenericAccessAdapter");
            reveal_strlit("ExcludedForWritesCharacteristicAdapter");
            reveal_strlit("BlacklistedCharacteristicsAdapter");
            reveal_strlit("CompletedAdapter");
            assert("NotPresentAdapter"@.len() == 17);
            assert("NotPoweredAdapter"@.len() == 17);
            assert("NotPresentAdapter"@[4] == 'r' && "NotPoweredAdapter"@[4] == 'o');
            assert("EmptyAdapter"@.len() == 12);
            assert("FailStartDiscoveryAdapter"@.len() == 25);
            assert("GlucoseHeartRateAdapter"@.len() == 23);
            assert("UnicodeDeviceAdapter"@.len() == 20);
            assert("BlacklistedServicesAdapter"@.len() == 26);
            assert("MissingCharacteristicGenericAccessAdapter"@.len() == 41);
            assert("MissingDescriptorGenericAccessAdapter"@.len() == 37);
            assert("ExcludedForWritesCharacteristicAdapter"@.len() == 38);
            assert("BlacklistedCharacteristicsAdapter"@.len() == 33);
            assert("CompletedAdapter"@.len() == 16);
        }
        self.testing = true;
        let mut adapter = BluetoothAdapter::init();
        if data_set_name == "NotPresentAdapter".to_owned() {
            adapter.name = "NotPresentAdapter".to_owned();
            adapter.present = false;
            adapter.discoverable = true;
            adapter.powered = true;
        } else if data_set_name == "NotPoweredAdapter".to_owned() {
            adapter.name = "NotPoweredAdapter".to_owned();
            adapter.discoverable = true;
        } else if data_set_name == "EmptyAdapter".to_owned() {
            adapter.name = "EmptyAdapter".to_owned();
            adapter.discoverable = true;
            adapter.powered = true;
        } else if data_set_name == "FailStartDiscoveryAdapter".to_owned() {
            adapter.name = "FailStartDiscoveryAdapter".to_owned();
            adapter.discoverable = true;
        } else if data_set_name == "GlucoseHeartRateAdapter".to_owned() {
            let random_id_1 = self.generate_device_id();
            let random_id_2 = self.generate_device_id();
            adapter.name = "GlucoseHeartRateAdapter".to_owned();
            adapter.discoverable = true;
            adapter.powered = true;
            let ghost st0 = self.store;
            let _dev_0 = self.store.create_device(&mut adapter, random_id_1, "00:00:00:00:00:01".to_owned(), Some("Glucose Device".to_owned()), false, vec!["00001800-0000-1000-8000-00805f9b34fb".to_owned(), "00001808-0000-1000-8000-00805f9b34fb".to_owned(), "00001804-0000-1000-8000-00805f9b34fb".to_owned()]);
            let ghost st1 = self.store;
            let _dev_1 = self.store.create_device(&mut adapter, random_id_2, "00:00:00:00:00:02".to_owned(), Some("Heart Rate Device".to_owned()), true, vec!["00001800-0000-1000-8000-00805f9b34fb".to_owned(), "0000180d-0000-1000-8000-00805f9b34fb".to_owned()]);
            proof { crate::adapter::lemma_grows_trans(&st0, &st1, &self.store); }
        } else if data_set_name == "UnicodeDeviceAdapter".to_owned() {
            let random_id = self.generate_device_id();
            adapter.name = "GlucoseHeartRateAdapter".to_owned();
            adapter.discoverable = true;
            adapter.powered = true;
            let ghost st0 = self.store;
            let _dev = self.store.create_device(&mut adapter, random_id, "00:00:00:00:00:03".to_owned(), Some("\u{2764}\u{2764}\u{2764}\u{2764}\u{2764}\u{2764}\u{2764}\u{2764}\u{2764}".to_owned()), false, Vec::new());
        } else if data_set_name == "BlacklistedServicesAdapter".to_owned() {
            let random_id = self.generate_device_id();
            adapter.name = "BlacklistedServicesAdapter".to_owned();
            adapter.discoverable = true;
            adapter.powered = true;
            let ghost st0 = self.store;
            let dev = self.store.create_device(&mut adapter, random_id, "00:00:00:00:00:04".to_owned(), Some("Mock Device".to_owned()), true, vec!["00001812-0000-1000-8000-00805f9b34fb".to_owned(), "00001530-1212-efde-1523-785feabcd123".to_owned(), "f000ffc0-0451-4000-b000-000000000000".to_owned()]);
            let ghost st1 = self.store;
            let _svc_0 = self.store.add_service(dev, "00001812-0000-1000-8000-00805f9b34fb".to_owned(), true);
            proof { crate::adapter::lemma_grows_trans(&st0, &st1, &self.store); }
            let ghost st2 = self.store;
            let _svc_1 = self.store.add_service(dev, "00001530-1212-efde-1523-785feabcd123".to_owned(), true);
            proof { crate::adapter::lemma_grows_trans(&st0, &st2, &self.store); }
            let ghost st3 = self.store;
            let _svc_2 = self.store.add_service(dev, "f000ffc0-0451-4000-b000-000000000000".to_owned(), true);
            proof { crate::adapter::lemma_grows_trans(&st0, &st3, &self.store); }
        } else if data_set_name == "MissingCharacteristicGenericAccessAdapter".to_owned() {
            let random_id = self.generate_device_id();
            adapter.name = "MissingCharacteristicGenericAccessAdapter".to_owned();
            adapter.discoverable = true;
            adapter.powered = true;
            let ghost st0 = self.store;
            let dev = self.store.create_device(&mut adapter, random_id, "00:00:00:00:00:05".to_owned(), Some("Heart Rate Device".to_owned()), true, vec!["00001800-0000-1000-8000-00805f9b34fb".to_owned(), "0000180d-0000-1000-8000-00805f9b34fb".to_owned()]);
            let ghost st1 = self.store;
            let _svc_0 = self.store.add_service(dev, "00001800-0000-1000-8000-00805f9b34fb".to_owned(), true);
            proof { crate::adapter::lemma_grows_trans(&st0, &st1, &self.store); }
            let ghost st2 = self.store;
            let _svc_1 = self.store.add_service(dev, "0000180d-0000-1000-8000-00805f9b34fb".to_owned(), true);
            proof { crate::adapter::lemma_grows_trans(&st0, &st2, &self.store); }
        } else if data_set_name == "MissingDescriptorGenericAccessAdapter".to_owned() {
            let random_id = self.generate_device_id();
            adapter.name = "MissingDescriptorGenericAccessAdapter".to_owned();
            adapter.discoverable = true;
            adapter.powered = true;
            let ghost st0 = self.store;
            let dev = self.store.create_device(&mut adapter, random_id, "00:00:00:00:00:06".to_owned(), Some("Heart Rate Device".to_owned()), true, vec!["00001800-0000-1000-8000-00805f9b34fb".to_owned(), "0000180d-0000-1000-8000-00805f9b34fb".to_owned()]);
            let ghost st1 = self.store;
            let svc_0 = self.store.add_service(dev, "00001800-0000-1000-8000-00805f9b34fb".to_owned(), true);
            proof { crate::adapter::lemma_grows_trans(&st0, &st1, &self.store); }
            let ghost st2 = self.store;
            let svc_1 = self.store.add_service(dev, "0000180d-0000-1000-8000-00805f9b34fb".to_owned(), true);
            proof { crate::adapter::lemma_grows_trans(&st0, &st2, &self.store); }
            let ghost st3 = self.store;
            let _chr_0 = self.store.add_characteristic(svc_0, "00002a00-0000-1000-8000-00805f9b34fb".to_owned(), Vec::new(), vec![1]);
            proof { crate::adapter::lemma_grows_trans(&st0, &st3, &self.store); }
            let ghost st4 = self.store;
            let _chr_1 = self.store.add_characteristic(svc_0, "00002a02-0000-1000-8000-00805f9b34fb".to_owned(), Vec::new(), vec![2]);
            proof { crate::adapter::lemma_grows_trans(&st0, &st4, &self.store); }
            let ghost st5 = self.store;
            let _chr_2 = self.store.add_characteristic(svc_1, "00002a37-0000-1000-8000-00805f9b34fb".to_owned(), Vec::new(), vec![3]);
            proof { crate::adapter::lemma_grows_trans(&st0, &st5, &self.store); }
            let ghost st6 = self.store;
            let _chr_3 = self.store.add_characteristic(svc_1, "00002a38-0000-1000-8000-00805f9b34fb".to_owned(), Vec::new(), vec![4]);
            proof { crate::adapter::lemma_grows_trans(&st0, &st6, &self.store); }
            let ghost st7 = self.store;
            let _chr_4 = self.store.add_characteristic(svc_1, "00002a38-0000-1000-8000-00805f9b34fb".to_owned(), Vec::new(), vec![5]);
            proof { crate::adapter::lemma_grows_trans(&st0, &st7, &self.store); }
        } else if data_set_name == "ExcludedForWritesCharacteristicAdapter".to_owned() {
            let random_id = self.generate_device_id();
            adapter.name = "ExcludedForWritesCharacteristicAdapter".to_owned();
            adapter.discoverable = true;
            adapter.powered = true;
            let ghost st0 = self.store;
            let dev = self.store.create_device(&mut adapter, random_id, "00:00:00:00:00:07".to_owned(), Some("Mock Device".to_owned()), true, vec!["00001800-0000-1000-8000-00805f9b34fb".to_owned()]);
            let ghost st1 = self.store;
            let svc_0 = self.store.add_service(dev, "00001800-0000-1000-8000-00805f9b34fb".to_owned(), true);
            proof { crate::adapter::lemma_grows_trans(&st0, &st1, &self.store); }
            let ghost st2 = self.store;
            let _chr_0 = self.store.add_characteristic(svc_0, "00002a02-0000-1000-8000-00805f9b34fb".to_owned(), Vec::new(), vec![8]);
            proof { crate::adapter::lemma_grows_trans(&st0, &st2, &self.store); }
        } else if data_set_name == "BlacklistedCharacteristicsAdapter".to_owned() {
            let random_id = self.generate_device_id();
            adapter.name = "BlacklistedCharacteristicsAdapter".to_owned();
            adapter.discoverable = true;
            adapter.powered = true;
            let ghost st0 = self.store;
            let dev = self.store.create_device(&mut adapter, random_id, "00:00:00:00:00:08".to_owned(), Some("Mock Device".to_owned()), true, vec!["00001800-0000-1000-8000-00805f9b34fb".to_owned()]);
            let ghost st1 = self.store;
            let svc_0 = self.store.add_service(dev, "00001800-0000-1000-8000-00805f9b34fb".to_owned(), true);
            proof { crate::adapter::lemma_grows_trans(&st0, &st1, &self.store); }
            let ghost st2 = self.store;
            let _chr_0 = self.store.add_characteristic(svc_0, "00002a03-0000-1000-8000-00805f9b34fb".to_owned(), Vec::new(), vec![6]);
            proof { crate::adapter::lemma_grows_trans(&st0, &st2, &self.store); }
            let ghost st3 = self.store;
            let _chr_1 = self.store.add_characteristic(svc_0, "00002a25-0000-1000-8000-00805f9b34fb".to_owned(), Vec::new(), vec![7]);
            proof { crate::adapter::lemma_grows_trans(&st0, &st3, &self.store); }
        } else if data_set_name == "CompletedAdapter".to_owned() {
            let random_id = self.generate_device_id();
            adapter.name = "CompletedAdapter".to_owned();
            adapter.discoverable = true;
            adapter.powered = true;
            let ghost st0 = self.store;
            let dev = self.store.create_device(&mut adapter, random_id, "00:00:00:00:00:09".to_owned(), Some("Heart Rate Device".to_owned()), true, vec!["00001800-0000-1000-8000-00805f9b34fb".to_owned(), "0000180d-0000-1000-8000-00805f9b34fb".to_owned()]);
            let ghost st1 = self.store;
            let svc_0 = self.store.add_service(dev, "00001800-0000-1000-8000-00805f9b34fb".to_owned(), true);
            proof { crate::adapter::lemma_grows_trans(&st0, &st1, &self.store); }
            let ghost st2 = self.store;
            let svc_1 = self.store.add_service(dev, "0000180d-0000-1000-8000-00805f9b34fb".to_owned(), true);
            proof { crate::adapter::lemma_grows_trans(&st0, &st2, &self.store); }
            let ghost st3 = self.store;
            let _chr_0 = self.store.add_characteristic(svc_0, "00002A00-0000-1000-8000-00805f9b34fb".to_owned(), Vec::new(), vec![9]);
            proof { crate::adapter::lemma_grows_trans(&st0, &st3, &self.store); }
            let ghost st4 = self.store;
            let _chr_1 = self.store.add_characteristic(svc_0, "00002A02-0000-1000-8000-00805f9b34fb".to_owned(), Vec::new(), vec![10]);
            proof { crate::adapter::lemma_grows_trans(&st0, &st4, &self.store); }
            let ghost st5 = self.store;
            let chr_2 = self.store.add_characteristic(svc_1, "00002a37-0000-1000-8000-00805f9b34fb".to_owned(), Vec::new(), vec![11]);
            proof { crate::adapter::lemma_grows_trans(&st0, &st5, &self.store); }
            let ghost st6 = self.store;
            let chr_3 = self.store.add_characteristic(svc_1, "00002a38-0000-1000-8000-00805f9b34fb".to_owned(), Vec::new(), vec![12]);
            proof { crate::adapter::lemma_grows_trans(&st0, &st6, &self.store); }
            let ghost st7 = self.store;
            let _chr_4 = self.store.add_characteristic(svc_1, "00002a38-0000-1000-8000-00805f9b34fb".to_owned(), Vec::new(), vec![13]);
            proof { crate::adapter::lemma_grows_trans(&st0, &st7, &self.store); }
            let ghost st8 = self.store;
            let _dsc_0 = self.store.add_descriptor(chr_2, "00002901-0000-1000-8000-00805f9b34fb".to_owned(), vec![14]);
            proof { crate::adapter::lemma_grows_trans(&st0, &st8, &self.store); }
            let ghost st9 = self.store;
            let _dsc_1 = self.store.add_descriptor(chr_3, "00002901-0000-1000-8000-00805f9b34fb".to_owned(), vec![15]);
            proof { crate::adapter::lemma_grows_trans(&st0, &st9, &self.store); }
        } else {
            self.adapter = Some(adapter);
            return Err(BluetoothError::Type("Wrong data set name was provided".to_owned()));
        }
        self.adapter = Some(adapter);
        Ok(true)
    }

    /// Handles one request and returns its reply; `Exit` alone has none.
    /// Every other request produces exactly one reply, of the shape of the
    /// request, and no powered-gated handler replies with success while the
    /// held adapter reports `powered = false` at entry.
    pub fn handle_request(&mut self, msg: crate::messages::BluetoothMethodMsg) -> (r: Option<
        crate::messages::BluetoothReply,
    >)
        requires
            old(self).wf(),
        ensures
            final(self).wf(),
            BluetoothManager::spec_state_monotone(old(self), final(self)),
            (r is Some) <==> !(msg is Exit),
            msg is RequestDevice ==> (r matches Some(rep) && rep is Device),
            msg is GATTServerConnect ==> (r matches Some(rep) && rep is Connected),
            msg is GATTServerDisconnect ==> (r matches Some(rep) && rep is Connected),
            msg is GetPrimaryService ==> (r matches Some(rep) && rep is Service),
            msg is GetPrimaryServices ==> (r matches Some(rep) && rep is Services),
            msg is GetIncludedService ==> (r matches Some(rep) && rep is Service),
            msg is GetIncludedServices ==> (r matches Some(rep) && rep is Services),
            msg is GetCharacteristic ==> (r matches Some(rep) && rep is Characteristic),
            msg is GetCharacteristics ==> (r matches Some(rep) && rep is Characteristics),
            msg is GetDescriptor ==> (r matches Some(rep) && rep is Descriptor),
            msg is GetDescriptors ==> (r matches Some(rep) && rep is Descriptors),
            msg is ReadValue ==> (r matches Some(rep) && rep is Value),
            msg is WriteValue ==> (r matches Some(rep) && rep is Written),
            msg is Test ==> (r matches Some(rep) && rep is TestResult),
            ({
                &&& spec_request_is_powered_gated(&msg)
                &&& old(self).adapter matches Some(a)
                &&& !a.powered
            }) ==> (r matches Some(rep) && !spec_reply_is_success(&rep)),
    {
        match msg {
            crate::messages::BluetoothMethodMsg::RequestDevice(options) => Some(
                crate::messages::BluetoothReply::Device(self.request_device(&options)),
            ),
            crate::messages::BluetoothMethodMsg::GATTServerConnect(device_id) => Some(
                crate::messages::BluetoothReply::Connected(self.gatt_server_connect(device_id)),
            ),
            crate::messages::BluetoothMethodMsg::GATTServerDisconnect(device_id) => Some(
                crate::messages::BluetoothReply::Connected(self.gatt_server_disconnect(device_id)),
            ),
            crate::messages::BluetoothMethodMsg::GetPrimaryService(device_id, uuid) => Some(
                crate::messages::BluetoothReply::Service(self.get_primary_service(device_id, uuid)),
            ),
            crate::messages::BluetoothMethodMsg::GetPrimaryServices(device_id, uuid) => Some(
                crate::messages::BluetoothReply::Services(
                    self.get_primary_services(device_id, uuid),
                ),
            ),
            crate::messages::BluetoothMethodMsg::GetIncludedService(service_id, uuid) => Some(
                crate::messages::BluetoothReply::Service(
                    self.get_included_service(service_id, uuid),
                ),
            ),
            crate::messages::BluetoothMethodMsg::GetIncludedServices(service_id, uuid) => Some(
                crate::messages::BluetoothReply::Services(
                    self.get_included_services(service_id, uuid),
                ),
            ),
            crate::messages::BluetoothMethodMsg::GetCharacteristic(service_id, uuid) => Some(
                crate::messages::BluetoothReply::Characteristic(
                    self.get_characteristic(service_id, uuid),
                ),
            ),
            crate::messages::BluetoothMethodMsg::GetCharacteristics(service_id, uuid) => Some(
                crate::messages::BluetoothReply::Characteristics(
                    self.get_characteristics(service_id, uuid),
                ),
            ),
            crate::messages::BluetoothMethodMsg::GetDescriptor(characteristic_id, uuid) => Some(
                crate::messages::BluetoothReply::Descriptor(
                    self.get_descriptor(characteristic_id, uuid),
                ),
            ),
            crate::messages::BluetoothMethodMsg::GetDescriptors(characteristic_id, uuid) => Some(
                crate::messages::BluetoothReply::Descriptors(
                    self.get_descriptors(characteristic_id, uuid),
                ),
            ),
            crate::messages::BluetoothMethodMsg::ReadValue(id) => Some(
                crate::messages::BluetoothReply::Value(self.read_value(id)),
            ),
            crate::messages::BluetoothMethodMsg::WriteValue(id, value) => Some(
                crate::messages::BluetoothReply::Written(self.write_value(id, value)),
            ),
            crate::messages::BluetoothMethodMsg::Test(data_set_name) => Some(
                crate::messages::BluetoothReply::TestResult(self.test(data_set_name)),
            ),
            crate::messages::BluetoothMethodMsg::Exit => None,
        }
    }
}

/// Whether a request kind runs behind the powered-adapter gate. The
/// included-service handlers consult only adapter presence, and Test and
/// Exit touch no GATT state.
pub open spec fn spec_request_is_powered_gated(msg: &crate::messages::BluetoothMethodMsg) -> bool {
    match msg {
        crate::messages::BluetoothMethodMsg::RequestDevice(_) => true,
        crate::messages::BluetoothMethodMsg::GATTServerConnect(_) => true,
        crate::messages::BluetoothMethodMsg::GATTServerDisconnect(_) => true,
        crate::messages::BluetoothMethodMsg::GetPrimaryService(_, _) => true,
        crate::messages::BluetoothMethodMsg::GetPrimaryServices(_, _) => true,
        crate::messages::BluetoothMethodMsg::GetIncludedService(_, _) => false,
        crate::messages::BluetoothMethodMsg::GetIncludedServices(_, _) => false,
        crate::messages::BluetoothMethodMsg::GetCharacteristic(_, _) => true,
        crate::messages::BluetoothMethodMsg::GetCharacteristics(_, _) => true,
        crate::messages::BluetoothMethodMsg::GetDescriptor(_, _) => true,
        crate::messages::BluetoothMethodMsg::GetDescriptors(_, _) => true,
        crate::messages::BluetoothMethodMsg::ReadValue(_) => true,
        crate::messages::BluetoothMethodMsg::WriteValue(_, _) => true,
        crate::messages::BluetoothMethodMsg::Test(_) => false,
        crate::messages::BluetoothMethodMsg::Exit => false,
    }
}

/// Whether a reply reports success.
pub open spec fn spec_reply_is_success(r: &crate::messages::BluetoothReply) -> bool {
    match r {
        crate::messages::BluetoothReply::Device(res) => res is Ok,
        crate::messages::BluetoothReply::Connected(res) => res is Ok,
        crate::messages::BluetoothReply::Service(res) => res is Ok,
        crate::messages::BluetoothReply::Services(res) => res is Ok,
        crate::messages::BluetoothReply::Characteristic(res) => res is Ok,
        crate::messages::BluetoothReply::Characteristics(res) => res is Ok,
        crate::messages::BluetoothReply::Descriptor(res) => res is Ok,
        crate::messages::BluetoothReply::Descriptors(res) => res is Ok,
        crate::messages::BluetoothReply::Value(res) => res is Ok,
        crate::messages::BluetoothReply::Written(res) => res is Ok,
        crate::messages::BluetoothReply::TestResult(res) => res is Ok,
    }
}

/// How a broker endpoint comes to be: a factory that spawns the broker and
/// hands back the requesting side of its channel.
pub trait BluetoothThreadFactory: Sized {
    fn new() -> Self;
}

/// Law: every identifier cached in a non-root tier has a parent pointer that
/// resolves to a cached parent identifier, tier by tier.
pub proof fn lemma_cache_coherence(m: &BluetoothManager, id: Seq<char>)
    requires
        m.wf(),
    ensures
        m.cached_services@.dom().contains(id) ==> m.service_to_device@.dom().contains(id)
            && m.cached_devices@.dom().contains(m.service_to_device@[id]@),
        m.cached_characteristics@.dom().contains(id) ==> m.characteristic_to_service@.dom().contains(
            id,
        ) && m.cached_services@.dom().contains(m.characteristic_to_service@[id]@),
        m.cached_descriptors@.dom().contains(id) ==> m.descriptor_to_characteristic@.dom().contains(
            id,
        ) && m.cached_characteristics@.dom().contains(m.descriptor_to_characteristic@[id]@),
{
}

/// Law: distinct device addresses always carry distinct generated ids.
pub proof fn lemma_device_ids_unique(m: &BluetoothManager, a1: Seq<char>, a2: Seq<char>)
    requires
        m.wf(),
        m.address_to_id@.dom().contains(a1),
        m.address_to_id@.dom().contains(a2),
        a1 != a2,
    ensures
        m.address_to_id@[a1]@ != m.address_to_id@[a2]@,
{
}

/// Law: across any handler step, a device's allowed-services set never
/// shrinks.
pub proof fn lemma_allowed_services_monotone(
    pre: &BluetoothManager,
    post: &BluetoothManager,
    id: Seq<char>,
)
    requires
        BluetoothManager::spec_state_monotone(pre, post),
        pre.allowed_services@.dom().contains(id),
    ensures
        post.allowed_services@.dom().contains(id),
        pre.allowed_services@[id]@.subset_of(post.allowed_services@[id]@),
{
}

/// Law: discovery is idempotent within a broker instance. A request-device
/// acceptance replies with the id bound to the accepted device's address
/// (see `request_device`), and an address, once bound, keeps its id across
/// every later handler step; so two acceptances of the same device return
/// the same id.
pub proof fn lemma_request_device_idempotent(
    s1: &BluetoothManager,
    s2: &BluetoothManager,
    addr: Seq<char>,
    id1: Seq<char>,
    id2: Seq<char>,
)
    requires
        BluetoothManager::spec_state_monotone(s1, s2),
        s1.address_to_id@.dom().contains(addr),
        id1 == s1.address_to_id@[addr]@,
        s2.address_to_id@.dom().contains(addr),
        id2 == s2.address_to_id@[addr]@,
    ensures
        id1 == id2,
{
}

/// Law: filter matching composes over suffixes. If a filter sequence
/// matches a device, then any longer sequence of non-empty filters that
/// carries it as a suffix matches the device too. (A sequence gaining an
/// empty filter matches nothing, so the non-empty condition cannot be
/// dropped.)
pub proof fn lemma_filter_sequence_suffix(
    d: &BluetoothDevice,
    fs1: Seq<BluetoothScanfilter>,
    fs2: Seq<BluetoothScanfilter>,
)
    requires
        spec_matches_filter_seq(d, fs1),
        fs1.len() <= fs2.len(),
        forall|i: int|
            0 <= i < fs1.len() ==> fs2[fs2.len() - fs1.len() + i] == #[trigger] fs1[i],
        forall|i: int| 0 <= i < fs2.len() ==> !(#[trigger] fs2[i]).spec_is_empty_or_invalid(),
    ensures
        spec_matches_filter_seq(d, fs2),
{
    let i0 = choose|i: int| 0 <= i < fs1.len() && spec_matches_filter(d, &fs1[i]);
    assert(fs2[fs2.len() - fs1.len() + i0] == fs1[i0]);
    assert(spec_matches_filter(d, &fs2[fs2.len() - fs1.len() + i0]));
}

} // verus!
