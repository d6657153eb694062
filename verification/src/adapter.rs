//! The injectable GATT capability: an adapter handle over a store of device,
//! service, characteristic and descriptor records.
//!
//! The store plays the role of the driver's object heap: records are created
//! by the test harness, live for the broker's lifetime, and are addressed by
//! index, as the driver's shared handles address its objects. The adapter
//! handle names which device records the current adapter session exposes.

use vstd::prelude::*;

verus! {

pub struct BluetoothDevice {
    pub id: String,
    pub address: String,
    pub name: Option<String>,
    pub connectable: bool,
    pub connected: bool,
    pub uuids: Vec<String>,
    pub appearance: Option<u16>,
    pub tx_power: Option<i8>,
    pub rssi: Option<i8>,
}

pub struct BluetoothGATTService {
    /// Driver-supplied instance id, stable within an adapter session.
    pub id: String,
    /// The device record this service belongs to.
    pub device: usize,
    pub uuid: String,
    pub is_primary: bool,
    /// Included services, by record index.
    pub includes: Vec<usize>,
}

pub struct BluetoothGATTCharacteristic {
    pub id: String,
    /// The service record this characteristic belongs to.
    pub service: usize,
    pub uuid: String,
    /// Driver flag strings; translated into the property bit set on reply.
    pub flags: Vec<String>,
    pub value: Vec<u8>,
}

pub struct BluetoothGATTDescriptor {
    pub id: String,
    /// The characteristic record this descriptor belongs to.
    pub characteristic: usize,
    pub uuid: String,
    pub value: Vec<u8>,
}

/// The adapter session: its own attributes and the devices it exposes.
pub struct BluetoothAdapter {
    pub present: bool,
    pub powered: bool,
    pub discoverable: bool,
    pub name: String,
    pub address: String,
    /// Device records of this session, by store index.
    pub devices: Vec<usize>,
}

impl BluetoothAdapter {
    /// A fresh session: present and powered off, exposing no devices.
    pub fn init() -> (r: BluetoothAdapter)
        ensures
            r.present,
            !r.powered,
            !r.discoverable,
            r.devices@.len() == 0,
    {
        BluetoothAdapter {
            present: true,
            powered: false,
            discoverable: false,
            name: String::new(),
            address: "00:00:00:00:00:00".to_owned(),
            devices: Vec::new(),
        }
    }

    /// Every device index of the session lies in the store.
    pub open spec fn wf_in(&self, store: &GattStore) -> bool {
        forall|i: int| 0 <= i < self.devices@.len() ==> (#[trigger] self.devices@[i]) < store.devices@.len()
    }
}

/// The driver-side object heap. Records are only ever appended; an index,
/// once handed out, stays valid for the broker's lifetime.
pub struct GattStore {
    pub devices: Vec<BluetoothDevice>,
    pub services: Vec<BluetoothGATTService>,
    pub characteristics: Vec<BluetoothGATTCharacteristic>,
    pub descriptors: Vec<BluetoothGATTDescriptor>,
    /// Mints driver instance ids for services, characteristics, descriptors.
    pub next_instance: u64,
}

impl GattStore {
    /// Parent indices of every record lie in the store.
    pub open spec fn wf(&self) -> bool {
        &&& forall|i: int|
            0 <= i < self.services@.len() ==> (#[trigger] self.services@[i]).device
                < self.devices@.len()
        &&& forall|i: int, j: int|
            0 <= i < self.services@.len() && 0 <= j < self.services@[i].includes@.len() ==> (
            #[trigger] self.services@[i].includes@[j]) < self.services@.len()
        &&& forall|i: int|
            0 <= i < self.characteristics@.len() ==> (#[trigger] self.characteristics@[i]).service
                < self.services@.len()
        &&& forall|i: int|
            0 <= i < self.descriptors@.len() ==> (
            #[trigger] self.descriptors@[i]).characteristic < self.characteristics@.len()
    }

    /// The store only grows: every record of `pre` is unchanged in `post`,
    /// except for a device's connection state, an attribute's value, which
    /// the driver may rewrite in place, and a service's included services,
    /// which may gain entries at the end.
    pub open spec fn grows_from(&self, pre: &GattStore) -> bool {
        &&& pre.devices@.len() <= self.devices@.len()
        &&& pre.services@.len() <= self.services@.len()
        &&& pre.characteristics@.len() <= self.characteristics@.len()
        &&& pre.descriptors@.len() <= self.descriptors@.len()
        &&& forall|i: int|
            0 <= i < pre.services@.len() ==> {
                &&& (#[trigger] self.services@[i]).id == pre.services@[i].id
                &&& self.services@[i].device == pre.services@[i].device
                &&& self.services@[i].uuid == pre.services@[i].uuid
                &&& self.services@[i].is_primary == pre.services@[i].is_primary
                &&& pre.services@[i].includes@.is_prefix_of(self.services@[i].includes@)
            }
        &&& forall|i: int|
            0 <= i < pre.characteristics@.len() ==> {
                &&& (#[trigger] self.characteristics@[i]).id == pre.characteristics@[i].id
                &&& self.characteristics@[i].service == pre.characteristics@[i].service
                &&& self.characteristics@[i].uuid == pre.characteristics@[i].uuid
                &&& self.characteristics@[i].flags == pre.characteristics@[i].flags
            }
        &&& forall|i: int|
            0 <= i < pre.descriptors@.len() ==> {
                &&& (#[trigger] self.descriptors@[i]).id == pre.descriptors@[i].id
                &&& self.descriptors@[i].characteristic == pre.descriptors@[i].characteristic
                &&& self.descriptors@[i].uuid == pre.descriptors@[i].uuid
            }
        &&& forall|i: int|
            0 <= i < pre.devices@.len() ==> {
                &&& (#[trigger] self.devices@[i]).id == pre.devices@[i].id
                &&& self.devices@[i].address == pre.devices@[i].address
                &&& self.devices@[i].name == pre.devices@[i].name
                &&& self.devices@[i].connectable == pre.devices@[i].connectable
                &&& self.devices@[i].uuids == pre.devices@[i].uuids
                &&& self.devices@[i].appearance == pre.devices@[i].appearance
                &&& self.devices@[i].tx_power == pre.devices@[i].tx_power
                &&& self.devices@[i].rssi == pre.devices@[i].rssi
            }
    }

    pub fn new() -> (r: GattStore)
        ensures
            r.wf(),
            r.devices@.len() == 0,
            r.services@.len() == 0,
            r.characteristics@.len() == 0,
            r.descriptors@.len() == 0,
    {
        GattStore {
            devices: Vec::new(),
            services: Vec::new(),
            characteristics: Vec::new(),
            descriptors: Vec::new(),
            next_instance: 0,
        }
    }

    fn mint_instance_id(&mut self) -> (r: String)
        ensures
            final(self).devices == old(self).devices,
            final(self).services == old(self).services,
            final(self).characteristics == old(self).characteristics,
            final(self).descriptors == old(self).descriptors,
    {
        let n = self.next_instance;
        self.next_instance = n.wrapping_add(1);
        n.to_string()
    }

    /// Creates a device record and attaches it to the adapter session.
    pub fn create_device(
        &mut self,
        adapter: &mut BluetoothAdapter,
        id: String,
        address: String,
        name: Option<String>,
        connectable: bool,
        uuids: Vec<String>,
    ) -> (r: usize)
        requires
            old(self).wf(),
            old(adapter).wf_in(old(self)),
        ensures
            final(self).wf(),
            final(adapter).wf_in(final(self)),
            final(self).grows_from(old(self)),
            final(self).devices@.len() == old(self).devices@.len() + 1,
            final(self).services == old(self).services,
            final(self).characteristics == old(self).characteristics,
            final(self).descriptors == old(self).descriptors,
            r == old(self).devices@.len(),
            forall|i: int|
                0 <= i < old(self).devices@.len() ==> #[trigger] final(self).devices@[i] == old(self).devices@[i],
            final(self).devices@[r as int].id@ == id@,
            final(self).devices@[r as int].address@ == address@,
            final(self).devices@[r as int].name == name,
            final(self).devices@[r as int].connectable == connectable,
            !final(self).devices@[r as int].connected,
            final(self).devices@[r as int].uuids == uuids,
            final(self).devices@[r as int].appearance is None,
            final(self).devices@[r as int].tx_power is None,
            final(self).devices@[r as int].rssi is None,
            final(adapter).devices@ == old(adapter).devices@.push(r),
            final(adapter).present == old(adapter).present,
            final(adapter).powered == old(adapter).powered,
            final(adapter).discoverable == old(adapter).discoverable,
            final(adapter).name == old(adapter).name,
    {
        let r = self.devices.len();
        self.devices.push(
            BluetoothDevice {
                id,
                address,
                name,
                connectable,
                connected: false,
                uuids,
                appearance: None,
                tx_power: None,
                rssi: None,
            },
        );
        adapter.devices.push(r);
        r
    }

    /// Creates a service record under a device, minting its instance id.
    pub fn add_service(&mut self, device: usize, uuid: String, is_primary: bool) -> (r: usize)
        requires
            old(self).wf(),
            device < old(self).devices@.len(),
        ensures
            final(self).wf(),
            final(self).grows_from(old(self)),
            final(self).devices == old(self).devices,
            final(self).characteristics == old(self).characteristics,
            final(self).descriptors == old(self).descriptors,
            final(self).services@.len() == old(self).services@.len() + 1,
            r == old(self).services@.len(),
            forall|i: int|
                0 <= i < old(self).services@.len() ==> #[trigger] final(self).services@[i] == old(
                    self,
                ).services@[i],
            final(self).services@[r as int].device == device,
            final(self).services@[r as int].uuid@ == uuid@,
            final(self).services@[r as int].is_primary == is_primary,
            final(self).services@[r as int].includes@.len() == 0,
    {
        let id = self.mint_instance_id();
        let r = self.services.len();
        self.services.push(
            BluetoothGATTService { id, device, uuid, is_primary, includes: Vec::new() },
        );
        r
    }

    /// Creates a characteristic record under a service, minting its id.
    pub fn add_characteristic(
        &mut self,
        service: usize,
        uuid: String,
        flags: Vec<String>,
        value: Vec<u8>,
    ) -> (r: usize)
        requires
            old(self).wf(),
            service < old(self).services@.len(),
        ensures
            final(self).wf(),
            final(self).grows_from(old(self)),
            final(self).devices == old(self).devices,
            final(self).services == old(self).services,
            final(self).descriptors == old(self).descriptors,
            final(self).characteristics@.len() == old(self).characteristics@.len() + 1,
            r == old(self).characteristics@.len(),
            forall|i: int|
                0 <= i < old(self).characteristics@.len() ==> #[trigger] final(self).characteristics@[i] == old(self).characteristics@[i],
            final(self).characteristics@[r as int].service == service,
            final(self).characteristics@[r as int].uuid@ == uuid@,
            final(self).characteristics@[r as int].flags == flags,
            final(self).characteristics@[r as int].value == value,
    {
        let id = self.mint_instance_id();
        let r = self.characteristics.len();
        self.characteristics.push(
            BluetoothGATTCharacteristic { id, service, uuid, flags, value },
        );
        r
    }

    /// Creates a descriptor record under a characteristic, minting its id.
    pub fn add_descriptor(&mut self, characteristic: usize, uuid: String, value: Vec<u8>) -> (r:
        usize)
        requires
            old(self).wf(),
            characteristic < old(self).characteristics@.len(),
        ensures
            final(self).wf(),
            final(self).grows_from(old(self)),
            final(self).devices == old(self).devices,
            final(self).services == old(self).services,
            final(self).characteristics == old(self).characteristics,
            final(self).descriptors@.len() == old(self).descriptors@.len() + 1,
            r == old(self).descriptors@.len(),
            forall|i: int|
                0 <= i < old(self).descriptors@.len() ==> #[trigger] final(self).descriptors@[i]
                    == old(self).descriptors@[i],
            final(self).descriptors@[r as int].characteristic == characteristic,
            final(self).descriptors@[r as int].uuid@ == uuid@,
            final(self).descriptors@[r as int].value == value,
    {
        let id = self.mint_instance_id();
        let r = self.descriptors.len();
        self.descriptors.push(BluetoothGATTDescriptor { id, characteristic, uuid, value });
        r
    }

    /// Attaches one service record to another's included services. The
    /// store's records are otherwise untouched.
    pub fn add_include(&mut self, service: usize, included: usize)
        requires
            old(self).wf(),
            service < old(self).services@.len(),
            included < old(self).services@.len(),
        ensures
            final(self).wf(),
            final(self).grows_from(old(self)),
            final(self).devices == old(self).devices,
            final(self).characteristics == old(self).characteristics,
            final(self).descriptors == old(self).descriptors,
            final(self).services@.len() == old(self).services@.len(),
            final(self).services@[service as int].includes@ == old(self).services@[service as int].includes@.push(included),
            final(self).services@[service as int].id == old(self).services@[service as int].id,
            final(self).services@[service as int].device == old(self).services@[service as int].device,
            final(self).services@[service as int].uuid == old(self).services@[service as int].uuid,
            final(self).services@[service as int].is_primary == old(self).services@[service as int].is_primary,
            forall|i: int|
                0 <= i < old(self).services@.len() && i != service ==> #[trigger] final(self).services@[i] == old(self).services@[i],
    {
        let rec = &mut self.services[service];
        rec.includes.push(included);
        proof {
            assert(old(self).services@[service as int].includes@.is_prefix_of(
                self.services@[service as int].includes@,
            ));
        }
    }

    /// The driver's connect: the device becomes connected exactly when it is
    /// connectable.
    pub fn connect_device(&mut self, d: usize)
        requires
            old(self).wf(),
            d < old(self).devices@.len(),
        ensures
            final(self).wf(),
            final(self).grows_from(old(self)),
            final(self).devices@.len() == old(self).devices@.len(),
            final(self).services == old(self).services,
            final(self).characteristics == old(self).characteristics,
            final(self).descriptors == old(self).descriptors,
            final(self).devices@[d as int].connected == old(self).devices@[d as int].connectable,
            forall|i: int|
                0 <= i < old(self).devices@.len() && i != d ==> #[trigger] final(self).devices@[i]
                    == old(self).devices@[i],
    {
        let connectable = self.devices[d].connectable;
        let dev = &mut self.devices[d];
        dev.connected = connectable;
    }

    /// The driver's disconnect: the device is no longer connected.
    pub fn disconnect_device(&mut self, d: usize)
        requires
            old(self).wf(),
            d < old(self).devices@.len(),
        ensures
            final(self).wf(),
            final(self).grows_from(old(self)),
            final(self).devices@.len() == old(self).devices@.len(),
            final(self).services == old(self).services,
            final(self).characteristics == old(self).characteristics,
            final(self).descriptors == old(self).descriptors,
            !final(self).devices@[d as int].connected,
            forall|i: int|
                0 <= i < old(self).devices@.len() && i != d ==> #[trigger] final(self).devices@[i]
                    == old(self).devices@[i],
    {
        let dev = &mut self.devices[d];
        dev.connected = false;
    }

    /// The driver's write to a characteristic: its value is replaced.
    pub fn write_characteristic_value(&mut self, c: usize, value: Vec<u8>)
        requires
            old(self).wf(),
            c < old(self).characteristics@.len(),
        ensures
            final(self).wf(),
            final(self).grows_from(old(self)),
            final(self).devices == old(self).devices,
            final(self).services == old(self).services,
            final(self).descriptors == old(self).descriptors,
            final(self).characteristics@.len() == old(self).characteristics@.len(),
            final(self).characteristics@[c as int].value == value,
            forall|i: int|
                0 <= i < old(self).characteristics@.len() && i != c
                    ==> #[trigger] final(self).characteristics@[i] == old(self).characteristics@[i],
    {
        let rec = &mut self.characteristics[c];
        rec.value = value;
    }

    /// The driver's write to a descriptor: its value is replaced.
    pub fn write_descriptor_value(&mut self, d: usize, value: Vec<u8>)
        requires
            old(self).wf(),
            d < old(self).descriptors@.len(),
        ensures
            final(self).wf(),
            final(self).grows_from(old(self)),
            final(self).devices == old(self).devices,
            final(self).services == old(self).services,
            final(self).characteristics == old(self).characteristics,
            final(self).descriptors@.len() == old(self).descriptors@.len(),
            final(self).descriptors@[d as int].value == value,
            forall|i: int|
                0 <= i < old(self).descriptors@.len() && i != d
                    ==> #[trigger] final(self).descriptors@[i] == old(self).descriptors@[i],
    {
        let rec = &mut self.descriptors[d];
        rec.value = value;
    }

    /// Enumerates the service records of a device, in store order.
    pub fn services_of_device(&self, d: usize) -> (r: Vec<usize>)
        requires
            self.wf(),
        ensures
            forall|k: int|
                0 <= k < r@.len() ==> (#[trigger] r@[k]) < self.services@.len()
                    && self.services@[r@[k] as int].device == d,
            forall|j: int|
                0 <= j < self.services@.len() && (#[trigger] self.services@[j]).device == d
                    ==> exists|k: int| 0 <= k < r@.len() && r@[k] == j,
            forall|k1: int, k2: int| 0 <= k1 < k2 < r@.len() ==> r@[k1] < r@[k2],
    {
        let n = self.services.len();
        let mut r: Vec<usize> = Vec::new();
        let mut i: usize = 0;
        while i < n
            invariant
                n == self.services@.len(),
                0 <= i <= n,
                forall|k: int|
                    0 <= k < r@.len() ==> (#[trigger] r@[k]) < i
                        && self.services@[r@[k] as int].device == d,
                forall|j: int|
                    0 <= j < i && (#[trigger] self.services@[j]).device == d ==> exists|k: int|
                        0 <= k < r@.len() && r@[k] == j,
                forall|k1: int, k2: int| 0 <= k1 < k2 < r@.len() ==> r@[k1] < r@[k2],
            decreases n - i,
        {
            if self.services[i].device == d {
                let ghost old_r = r@;
                r.push(i);
                proof {
                    assert forall|j: int|
                        0 <= j < i + 1 && (#[trigger] self.services@[j]).device == d implies exists|
                            k: int,
                        | 0 <= k < r@.len() && r@[k] == j by {
                        if j == i {
                            assert(r@[old_r.len() as int] == j);
                        } else {
                            let k = choose|k: int| 0 <= k < old_r.len() && old_r[k] == j;
                            assert(r@[k] == j);
                        }
                    }
                }
            }
            i = i + 1;
        }
        r
    }

    /// Enumerates the characteristic records of a service, in store order.
    pub fn characteristics_of_service(&self, s: usize) -> (r: Vec<usize>)
        requires
            self.wf(),
        ensures
            forall|k: int|
                0 <= k < r@.len() ==> (#[trigger] r@[k]) < self.characteristics@.len()
                    && self.characteristics@[r@[k] as int].service == s,
            forall|j: int|
                0 <= j < self.characteristics@.len() && (
                #[trigger] self.characteristics@[j]).service == s ==> exists|k: int|
                    0 <= k < r@.len() && r@[k] == j,
            forall|k1: int, k2: int| 0 <= k1 < k2 < r@.len() ==> r@[k1] < r@[k2],
    {
        let n = self.characteristics.len();
        let mut r: Vec<usize> = Vec::new();
        let mut i: usize = 0;
        while i < n
            invariant
                n == self.characteristics@.len(),
                0 <= i <= n,
                forall|k: int|
                    0 <= k < r@.len() ==> (#[trigger] r@[k]) < i
                        && self.characteristics@[r@[k] as int].service == s,
                forall|j: int|
                    0 <= j < i && (#[trigger] self.characteristics@[j]).service == s ==> exists|
                        k: int,
                    | 0 <= k < r@.len() && r@[k] == j,
                forall|k1: int, k2: int| 0 <= k1 < k2 < r@.len() ==> r@[k1] < r@[k2],
            decreases n - i,
        {
            if self.characteristics[i].service == s {
                let ghost old_r = r@;
                r.push(i);
                proof {
                    assert forall|j: int|
                        0 <= j < i + 1 && (#[trigger] self.characteristics@[j]).service == s implies exists|
                            k: int,
                        | 0 <= k < r@.len() && r@[k] == j by {
                        if j == i {
                            assert(r@[old_r.len() as int] == j);
                        } else {
                            let k = choose|k: int| 0 <= k < old_r.len() && old_r[k] == j;
                            assert(r@[k] == j);
                        }
                    }
                }
            }
            i = i + 1;
        }
        r
    }

    /// Enumerates the descriptor records of a characteristic, in store order.
    pub fn descriptors_of_characteristic(&self, c: usize) -> (r: Vec<usize>)
        requires
            self.wf(),
        ensures
            forall|k: int|
                0 <= k < r@.len() ==> (#[trigger] r@[k]) < self.descriptors@.len()
                    && self.descriptors@[r@[k] as int].characteristic == c,
            forall|j: int|
                0 <= j < self.descriptors@.len() && (
                #[trigger] self.descriptors@[j]).characteristic == c ==> exists|k: int|
                    0 <= k < r@.len() && r@[k] == j,
            forall|k1: int, k2: int| 0 <= k1 < k2 < r@.len() ==> r@[k1] < r@[k2],
    {
        let n = self.descriptors.len();
        let mut r: Vec<usize> = Vec::new();
        let mut i: usize = 0;
        while i < n
            invariant
                n == self.descriptors@.len(),
                0 <= i <= n,
                forall|k: int|
                    0 <= k < r@.len() ==> (#[trigger] r@[k]) < i
                        && self.descriptors@[r@[k] as int].characteristic == c,
                forall|j: int|
                    0 <= j < i && (#[trigger] self.descriptors@[j]).characteristic == c ==> exists|
                        k: int,
                    | 0 <= k < r@.len() && r@[k] == j,
                forall|k1: int, k2: int| 0 <= k1 < k2 < r@.len() ==> r@[k1] < r@[k2],
            decreases n - i,
        {
            if self.descriptors[i].characteristic == c {
                let ghost old_r = r@;
                r.push(i);
                proof {
                    assert forall|j: int|
                        0 <= j < i + 1 && (#[trigger] self.descriptors@[j]).characteristic == c implies exists|
                            k: int,
                        | 0 <= k < r@.len() && r@[k] == j by {
                        if j == i {
                            assert(r@[old_r.len() as int] == j);
                        } else {
                            let k = choose|k: int| 0 <= k < old_r.len() && old_r[k] == j;
                            assert(r@[k] == j);
                        }
                    }
                }
            }
            i = i + 1;
        }
        r
    }
}

/// Store growth composes across successive driver operations.
pub proof fn lemma_grows_trans(a: &GattStore, b: &GattStore, c: &GattStore)
    requires
        b.grows_from(a),
        c.grows_from(b),
    ensures
        c.grows_from(a),
{
    assert forall|i: int| 0 <= i < a.services@.len() implies {
        &&& (#[trigger] c.services@[i]).id == a.services@[i].id
        &&& c.services@[i].device == a.services@[i].device
        &&& c.services@[i].uuid == a.services@[i].uuid
        &&& c.services@[i].is_primary == a.services@[i].is_primary
        &&& a.services@[i].includes@.is_prefix_of(c.services@[i].includes@)
    } by {
        assert((b.services@[i]).id == a.services@[i].id);
        assert(b.services@[i].device == a.services@[i].device);
        assert(b.services@[i].uuid == a.services@[i].uuid);
        assert(b.services@[i].is_primary == a.services@[i].is_primary);
        assert(a.services@[i].includes@.is_prefix_of(b.services@[i].includes@));
        assert(b.services@[i].includes@.is_prefix_of(c.services@[i].includes@));
        let la = a.services@[i].includes@.len() as int;
        assert(a.services@[i].includes@ =~= c.services@[i].includes@.subrange(0, la));
    }
    assert forall|i: int| 0 <= i < a.characteristics@.len() implies {
        &&& (#[trigger] c.characteristics@[i]).id == a.characteristics@[i].id
        &&& c.characteristics@[i].service == a.characteristics@[i].service
        &&& c.characteristics@[i].uuid == a.characteristics@[i].uuid
        &&& c.characteristics@[i].flags == a.characteristics@[i].flags
    } by {
        assert((b.characteristics@[i]).id == a.characteristics@[i].id);
        assert(b.characteristics@[i].service == a.characteristics@[i].service);
        assert(b.characteristics@[i].uuid == a.characteristics@[i].uuid);
        assert(b.characteristics@[i].flags == a.characteristics@[i].flags);
    }
    assert forall|i: int| 0 <= i < a.descriptors@.len() implies {
        &&& (#[trigger] c.descriptors@[i]).id == a.descriptors@[i].id
        &&& c.descriptors@[i].characteristic == a.descriptors@[i].characteristic
        &&& c.descriptors@[i].uuid == a.descriptors@[i].uuid
    } by {
        assert((b.descriptors@[i]).id == a.descriptors@[i].id);
        assert(b.descriptors@[i].characteristic == a.descriptors@[i].characteristic);
        assert(b.descriptors@[i].uuid == a.descriptors@[i].uuid);
    }
    assert forall|i: int| 0 <= i < a.devices@.len() implies {
        &&& (#[trigger] c.devices@[i]).id == a.devices@[i].id
        &&& c.devices@[i].address == a.devices@[i].address
        &&& c.devices@[i].name == a.devices@[i].name
        &&& c.devices@[i].connectable == a.devices@[i].connectable
        &&& c.devices@[i].uuids == a.devices@[i].uuids
        &&& c.devices@[i].appearance == a.devices@[i].appearance
        &&& c.devices@[i].tx_power == a.devices@[i].tx_power
        &&& c.devices@[i].rssi == a.devices@[i].rssi
    } by {
        assert((b.devices@[i]).id == a.devices@[i].id);
        assert(b.devices@[i].address == a.devices@[i].address);
        assert(b.devices@[i].name == a.devices@[i].name);
        assert(b.devices@[i].connectable == a.devices@[i].connectable);
        assert(b.devices@[i].uuids == a.devices@[i].uuids);
        assert(b.devices@[i].appearance == a.devices@[i].appearance);
        assert(b.devices@[i].tx_power == a.devices@[i].tx_power);
        assert(b.devices@[i].rssi == a.devices@[i].rssi);
    }
}

} // verus!
