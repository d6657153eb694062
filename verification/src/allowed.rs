//! The per-origin allowed-devices registry: which device addresses an origin
//! has been granted, the opaque ids minted for them, and the service UUIDs
//! the origin may use on each.
//!
//! Entries are keyed by the pair of origin and device address, joined into
//! one key string by a NUL separator. The public functions require that
//! neither the origin (a serialized URL) nor the address (a MAC-like string)
//! contains that separator, which makes the key injective in the pair.

use vstd::prelude::*;
use crate::scanfilter::BluetoothScanfilterSequence;
use crate::strmap::{StrMap, StrSet};
use crate::strutil::spec_uuid_eq;
use rand::RngCore;
use rustc_serialize::base64::{STANDARD, ToBase64};

verus! {

/// The base64 rendering (RFC 4648 standard alphabet, padded) of a byte
/// sequence; a function of the bytes alone.
pub uninterp spec fn base64_of(bytes: Seq<u8>) -> Seq<char>;

/// Relies on `rand::RngCore::fill_bytes` on the thread-local generator: the
/// buffer is filled, so sixteen bytes come back. Nothing can be promised of
/// their values.
#[verifier::external_body]
fn random_bytes_16() -> (r: Vec<u8>)
    ensures
        r@.len() == 16,
{
    let mut v = vec![0u8; 16];
    rand::thread_rng().fill_bytes(&mut v);
    v
}

/// Relies on `rustc_serialize::base64::ToBase64::to_base64` with the
/// `STANDARD` configuration: the result is the padded base64 rendering of
/// the bytes, four characters for every started group of three bytes.
#[verifier::external_body]
fn to_base64(b: &Vec<u8>) -> (r: String)
    ensures
        r@ == base64_of(b@),
        r@.len() == 4 * ((b@.len() + 2) / 3),
{
    b.to_base64(STANDARD)
}

/// The key under which an origin is filed: origins are kept apart from the
/// absent origin by a distinct first character.
pub open spec fn spec_origin_key(origin: Option<Seq<char>>) -> Seq<char> {
    match origin {
        Some(o) => seq!['@'].add(o),
        None => seq!['#'],
    }
}

/// The key of an (origin, device address) pair.
pub open spec fn spec_pair_key(origin: Option<Seq<char>>, address: Seq<char>) -> Seq<char> {
    spec_origin_key(origin).add(seq!['\u{0}']).add(address)
}

fn pair_key(origin: &Option<String>, address: &String) -> (r: String)
    ensures
        r@ == spec_pair_key(origin.deep_view(), address@),
{
    let mut k = match origin {
        Some(o) => {
            let mut k = "@".to_owned();
            k.append(o.as_str());
            k
        },
        None => "#".to_owned(),
    };
    proof {
        reveal_strlit("@");
        reveal_strlit("#");
        assert(k@ == spec_origin_key(origin.deep_view()));
    }
    k.append("\u{0}");
    k.append(address.as_str());
    proof {
        reveal_strlit("\u{0}");
        assert(k@ =~= spec_pair_key(origin.deep_view(), address@));
    }
    k
}

/// The service UUIDs a request grants: every UUID required by some filter
/// together with every optional service.
pub open spec fn spec_granted_services(
    filters: &BluetoothScanfilterSequence,
    optional: Seq<Seq<char>>,
) -> Set<Seq<char>> {
    crate::scanfilter::spec_services_of_request(filters.spec_filters(), optional)
}

/// Unions the request's (filter service UUIDs and optional services) into
/// the given set.
pub fn add_union_of_services_to(
    filters: &BluetoothScanfilterSequence,
    optional_services: Vec<String>,
    union_of_services: &mut StrSet,
)
    requires
        old(union_of_services).wf(),
    ensures
        final(union_of_services).wf(),
        final(union_of_services)@ == old(union_of_services)@.union(
            spec_granted_services(
                filters,
                optional_services@.map_values(|s: String| s@),
            ),
        ),
{
    let nf = filters.len();
    let ghost base = union_of_services@;
    let mut i: usize = 0;
    while i < nf
        invariant
            union_of_services.wf(),
            nf == filters.spec_filters().len(),
            0 <= i <= nf,
            union_of_services@ == base.union(
                Set::new(
                    |u: Seq<char>|
                        exists|i2: int, j: int|
                            0 <= i2 < i && 0 <= j < filters.spec_filters()[i2].spec_services().len()
                                && (#[trigger] filters.spec_filters()[i2].spec_services()[j]) == u,
                ),
            ),
        decreases nf - i,
    {
        let f = filters.filter_at(i);
        let services = f.get_services();
        let ns = services.len();
        let mut j: usize = 0;
        while j < ns
            invariant
                union_of_services.wf(),
                nf == filters.spec_filters().len(),
                0 <= i < nf,
                ns == services@.len(),
                services@.len() == filters.spec_filters()[i as int].spec_services().len(),
                forall|j2: int|
                    0 <= j2 < ns ==> (#[trigger] services@[j2])@ == filters.spec_filters()[i as int].spec_services()[j2],
                0 <= j <= ns,
                union_of_services@ == base.union(
                    Set::new(
                        |u: Seq<char>|
                            {
                                ||| exists|i2: int, j2: int|
                                    0 <= i2 < i && 0 <= j2 < filters.spec_filters()[i2].spec_services().len()
                                        && (#[trigger] filters.spec_filters()[i2].spec_services()[j2]) == u
                                ||| exists|j2: int|
                                    0 <= j2 < j && filters.spec_filters()[i as int].spec_services()[j2] == u
                            },
                    ),
                ),
            decreases ns - j,
        {
            union_of_services.insert(services[j].clone());
            proof {
                assert(union_of_services@ =~= base.union(
                    Set::new(
                        |u: Seq<char>|
                            {
                                ||| exists|i2: int, j2: int|
                                    0 <= i2 < i && 0 <= j2 < filters.spec_filters()[i2].spec_services().len()
                                        && (#[trigger] filters.spec_filters()[i2].spec_services()[j2]) == u
                                ||| exists|j2: int|
                                    0 <= j2 < j + 1 && filters.spec_filters()[i as int].spec_services()[j2] == u
                            },
                    ),
                ));
            }
            j = j + 1;
        }
        proof {
            assert(union_of_services@ =~= base.union(
                Set::new(
                    |u: Seq<char>|
                        exists|i2: int, j: int|
                            0 <= i2 < i + 1 && 0 <= j < filters.spec_filters()[i2].spec_services().len()
                                && (#[trigger] filters.spec_filters()[i2].spec_services()[j]) == u,
                ),
            ));
        }
        i = i + 1;
    }
    let no = optional_services.len();
    let ghost mid = union_of_services@;
    let mut k: usize = 0;
    while k < no
        invariant
            union_of_services.wf(),
            no == optional_services@.len(),
            0 <= k <= no,
            union_of_services@ == mid.union(
                Set::new(
                    |u: Seq<char>|
                        exists|j: int|
                            0 <= j < k && (#[trigger] optional_services@[j])@ == u,
                ),
            ),
        decreases no - k,
    {
        union_of_services.insert(optional_services[k].clone());
        proof {
            assert(union_of_services@ =~= mid.union(
                Set::new(
                    |u: Seq<char>|
                        exists|j: int|
                            0 <= j < k + 1 && (#[trigger] optional_services@[j])@ == u,
                ),
            ));
        }
        k = k + 1;
    }
    proof {
        let opt = optional_services@.map_values(|s: String| s@);
        assert forall|u: Seq<char>| opt.contains(u) implies exists|j: int|
            0 <= j < no && (#[trigger] optional_services@[j])@ == u by {
            let j = choose|j: int| 0 <= j < opt.len() && opt[j] == u;
            assert((optional_services@[j])@ == u);
        }
        assert forall|u: Seq<char>|
            (exists|j: int|
                0 <= j < no && (#[trigger] optional_services@[j])@ == u) implies opt.contains(
            u,
        ) by {
            let j = choose|j: int| 0 <= j < no && (#[trigger] optional_services@[j])@ == u;
            assert(opt[j] == u);
        }
        assert(union_of_services@ =~= old(union_of_services)@.union(
            spec_granted_services(filters, opt),
        ));
    }
}

/// The allowed-devices registry of one broker instance.
pub struct AllowedDevicesMap {
    /// (origin, address) pair key to the opaque device id minted for it.
    pub pair_to_id: StrMap<String>,
    /// (origin, address) pair key to the granted service UUIDs.
    pub pair_to_services: StrMap<StrSet>,
    /// Every device id ever minted by this registry.
    pub device_id_set: StrSet,
}

impl AllowedDevicesMap {
    pub open spec fn wf(&self) -> bool {
        &&& self.pair_to_id.wf()
        &&& self.pair_to_services.wf()
        &&& self.device_id_set.wf()
        &&& forall|k: Seq<char>|
            #[trigger] self.pair_to_services@.dom().contains(k) ==> self.pair_to_services@[k].wf()
    }

    pub fn new() -> (r: AllowedDevicesMap)
        ensures
            r.wf(),
            r.pair_to_id@ == Map::<Seq<char>, String>::empty(),
            r.pair_to_services@ == Map::<Seq<char>, StrSet>::empty(),
            r.device_id_set@ == Set::<Seq<char>>::empty(),
    {
        AllowedDevicesMap {
            pair_to_id: StrMap::new(),
            pair_to_services: StrMap::new(),
            device_id_set: StrSet::new(),
        }
    }

    /// Mints a device id from sixteen random bytes rendered in base64,
    /// re-rolling until it collides with no id minted before.
    fn generate_device_id(&self) -> (r: String)
        requires
            self.wf(),
        ensures
            !self.device_id_set@.contains(r@),
    {
        let mut attempts: usize = 0;
        while attempts < 32
            invariant
                self.wf(),
            decreases 32 - attempts,
        {
            let bytes = random_bytes_16();
            let id = to_base64(&bytes);
            if !self.device_id_set.contains(&id) {
                return id;
            }
            attempts = attempts + 1;
        }
        // The random space dwarfs the registry, so reaching this point takes
        // 32 collisions in a row; mint an id longer than every minted id,
        // which cannot collide with any of them.
        let bound = self.device_id_set.max_elem_len();
        let mut id = String::new();
        while id.as_str().unicode_len() <= bound
            invariant
                self.wf(),
                forall|k: Seq<char>| self.device_id_set@.contains(k) ==> k.len() <= bound,
                id@.len() <= bound + 1,
            decreases bound + 1 - id@.len(),
        {
            proof {
                reveal_strlit("x");
            }
            id.append("x");
        }
        id
    }

    /// Registers a device for an origin. A pair seen before keeps its id and
    /// gains the request's service UUIDs; a new pair is minted a fresh id
    /// and starts with exactly the request's service UUIDs.
    pub fn add_device(
        &mut self,
        origin: &Option<String>,
        device_adress: &String,
        filters: &BluetoothScanfilterSequence,
        optional_services: Vec<String>,
    ) -> (r: Result<String, String>)
        requires
            old(self).wf(),
            origin matches Some(o) ==> !o@.contains('\u{0}'),
            !device_adress@.contains('\u{0}'),
        ensures
            final(self).wf(),
            r is Ok,
            ({
                let k = spec_pair_key(origin.deep_view(), device_adress@);
                let granted = spec_granted_services(
                    filters,
                    optional_services@.map_values(|s: String| s@),
                );
                &&& final(self).pair_to_id@.dom().contains(k)
                &&& final(self).pair_to_services@.dom().contains(k)
                &&& (r matches Ok(id) ==> id@ == final(self).pair_to_id@[k]@)
                &&& (old(self).pair_to_id@.dom().contains(k) ==> {
                    &&& final(self).pair_to_id@[k]@ == old(self).pair_to_id@[k]@
                    &&& (old(self).pair_to_services@.dom().contains(k) ==> final(self).pair_to_services@[k]@ == old(self).pair_to_services@[k]@.union(granted))
                })
                &&& (!old(self).pair_to_id@.dom().contains(k) ==> {
                    &&& !old(self).device_id_set@.contains(final(self).pair_to_id@[k]@)
                    &&& final(self).pair_to_services@[k]@ == granted
                })
                &&& forall|k2: Seq<char>|
                    #[trigger] old(self).pair_to_id@.dom().contains(k2) && k2 != k ==> final(self).pair_to_id@.dom().contains(k2) && final(self).pair_to_id@[k2] == old(self).pair_to_id@[k2]
            }),
    {
        let key = pair_key(origin, device_adress);
        let existing = match self.pair_to_id.get(&key) {
            Some(id) => Some(id.clone()),
            None => None,
        };
        match existing {
            Some(device_id) => {
                let mut services = match self.pair_to_services.get(&key) {
                    Some(s) => {
                        let mut fresh = StrSet::new();
                        fresh.insert_all(s);
                        fresh
                    },
                    None => StrSet::new(),
                };
                add_union_of_services_to(filters, optional_services, &mut services);
                self.pair_to_services.insert(key, services);
                Ok(device_id)
            },
            None => {
                let device_id = self.generate_device_id();
                self.device_id_set.insert(device_id.clone());
                self.pair_to_id.insert(key.clone(), device_id.clone());
                let mut services = StrSet::new();
                add_union_of_services_to(filters, optional_services, &mut services);
                proof {
                    assert(services@ =~= spec_granted_services(
                        filters,
                        optional_services@.map_values(|s: String| s@),
                    ));
                }
                self.pair_to_services.insert(key, services);
                Ok(device_id)
            },
        }
    }

    /// Whether the origin has been granted the service UUID on the device
    /// with that address; grants compare equal up to ASCII case.
    pub fn is_origin_allowed_to_acces_service(
        &self,
        origin: Option<String>,
        device_adress: &String,
        service_uuid: &String,
    ) -> (r: bool)
        requires
            self.wf(),
            origin matches Some(o) ==> !o@.contains('\u{0}'),
            !device_adress@.contains('\u{0}'),
        ensures
            r == ({
                let k = spec_pair_key(origin.deep_view(), device_adress@);
                &&& self.pair_to_services@.dom().contains(k)
                &&& exists|u: Seq<char>|
                    #[trigger] self.pair_to_services@[k]@.contains(u) && spec_uuid_eq(
                        u,
                        service_uuid@,
                    )
            }),
    {
        let key = pair_key(&origin, device_adress);
        match self.pair_to_services.get(&key) {
            Some(services_set) => services_set.contains_ci(service_uuid),
            None => false,
        }
    }
}

} // verus!
