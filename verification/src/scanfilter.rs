//! Scan filters: the constraints a request-device call places on discovery.
//!
//! A filter constrains the device name (exact), a name prefix, and a set of
//! required service UUIDs. A filter that constrains nothing is *empty* and
//! matches no device; a sequence containing an empty filter (or no filter at
//! all) matches no device either.

use vstd::prelude::*;
use crate::strmap::StrSet;

verus! {

pub struct BluetoothScanfilter {
    name: String,
    name_prefix: String,
    services: Vec<String>,
}

impl BluetoothScanfilter {
    pub closed spec fn spec_name(&self) -> Seq<char> {
        self.name@
    }

    pub closed spec fn spec_name_prefix(&self) -> Seq<char> {
        self.name_prefix@
    }

    /// The required service UUIDs, in the order they were given.
    pub closed spec fn spec_services(&self) -> Seq<Seq<char>> {
        self.services@.map_values(|s: String| s@)
    }

    /// An empty filter constrains nothing and is treated as invalid.
    pub open spec fn spec_is_empty_or_invalid(&self) -> bool {
        self.spec_name().len() == 0 && self.spec_name_prefix().len() == 0
            && self.spec_services().len() == 0
    }

    pub fn new(name: String, name_prefix: String, services: Vec<String>) -> (r: BluetoothScanfilter)
        ensures
            r.spec_name() == name@,
            r.spec_name_prefix() == name_prefix@,
            r.spec_services().len() == services@.len(),
            forall|i: int|
                0 <= i < services@.len() ==> r.spec_services()[i] == (#[trigger] services@[i])@,
    {
        BluetoothScanfilter { name, name_prefix, services }
    }

    pub fn get_name(&self) -> (r: &String)
        ensures
            r@ == self.spec_name(),
    {
        &self.name
    }

    pub fn get_name_prefix(&self) -> (r: &String)
        ensures
            r@ == self.spec_name_prefix(),
    {
        &self.name_prefix
    }

    pub fn get_services(&self) -> (r: &Vec<String>)
        ensures
            r@.len() == self.spec_services().len(),
            forall|i: int|
                0 <= i < r@.len() ==> (#[trigger] r@[i])@ == self.spec_services()[i],
    {
        &self.services
    }

    pub fn is_empty_or_invalid(&self) -> (r: bool)
        ensures
            r == self.spec_is_empty_or_invalid(),
    {
        self.name.as_str().is_empty() && self.name_prefix.as_str().is_empty()
            && self.services.len() == 0
    }
}

pub struct BluetoothScanfilterSequence {
    filters: Vec<BluetoothScanfilter>,
}

impl BluetoothScanfilterSequence {
    pub closed spec fn spec_filters(&self) -> Seq<BluetoothScanfilter> {
        self.filters@
    }

    /// A sequence matches nothing when it has no filter or some empty filter.
    pub open spec fn spec_has_empty_or_invalid_filter(&self) -> bool {
        ||| self.spec_filters().len() == 0
        ||| exists|i: int|
            0 <= i < self.spec_filters().len()
                && (#[trigger] self.spec_filters()[i]).spec_is_empty_or_invalid()
    }

    pub fn new(filters: Vec<BluetoothScanfilter>) -> (r: BluetoothScanfilterSequence)
        ensures
            r.spec_filters() == filters@,
    {
        BluetoothScanfilterSequence { filters }
    }

    pub fn has_empty_or_invalid_filter(&self) -> (r: bool)
        ensures
            r == self.spec_has_empty_or_invalid_filter(),
    {
        let n = self.filters.len();
        if n == 0 {
            return true;
        }
        let mut i: usize = 0;
        while i < n
            invariant
                n == self.filters@.len(),
                0 <= i <= n,
                forall|j: int|
                    0 <= j < i ==> !(#[trigger] self.filters@[j]).spec_is_empty_or_invalid(),
            decreases n - i,
        {
            if self.filters[i].is_empty_or_invalid() {
                return true;
            }
            i = i + 1;
        }
        false
    }

    pub fn len(&self) -> (r: usize)
        ensures
            r == self.spec_filters().len(),
    {
        self.filters.len()
    }

    pub fn filter_at(&self, i: usize) -> (r: &BluetoothScanfilter)
        requires
            i < self.spec_filters().len(),
        ensures
            *r == self.spec_filters()[i as int],
    {
        &self.filters[i]
    }
}

/// The options of a request-device call: the filter sequence and the extra
/// service UUIDs the origin asks leave to use.
pub struct RequestDeviceoptions {
    filters: BluetoothScanfilterSequence,
    optional_services: Vec<String>,
}

/// The set of service UUIDs named by a request: every UUID required by some
/// filter together with every optional service.
pub open spec fn spec_services_of_request(
    filters: Seq<BluetoothScanfilter>,
    optional: Seq<Seq<char>>,
) -> Set<Seq<char>> {
    Set::new(
        |u: Seq<char>|
            {
                ||| exists|i: int, j: int|
                    0 <= i < filters.len() && 0 <= j < filters[i].spec_services().len()
                        && (#[trigger] filters[i].spec_services()[j]) == u
                ||| optional.contains(u)
            },
    )
}

impl RequestDeviceoptions {
    pub closed spec fn spec_filters(&self) -> Seq<BluetoothScanfilter> {
        self.filters.spec_filters()
    }

    pub closed spec fn spec_optional_services(&self) -> Seq<Seq<char>> {
        self.optional_services@.map_values(|s: String| s@)
    }

    pub fn new(
        filters: BluetoothScanfilterSequence,
        optional_services: Vec<String>,
    ) -> (r: RequestDeviceoptions)
        ensures
            r.spec_filters() == filters.spec_filters(),
            r.spec_optional_services().len() == optional_services@.len(),
            forall|i: int|
                0 <= i < optional_services@.len() ==> r.spec_optional_services()[i] == (
                #[trigger] optional_services@[i])@,
    {
        RequestDeviceoptions { filters, optional_services }
    }

    pub fn get_filters(&self) -> (r: &BluetoothScanfilterSequence)
        ensures
            r.spec_filters() == self.spec_filters(),
    {
        &self.filters
    }

    /// Collects every service UUID the request names.
    pub fn get_services_set(&self) -> (r: StrSet)
        ensures
            r.wf(),
            r@ == spec_services_of_request(self.spec_filters(), self.spec_optional_services()),
    {
        let mut r = StrSet::new();
        let nf = self.filters.len();
        let mut i: usize = 0;
        while i < nf
            invariant
                r.wf(),
                nf == self.spec_filters().len(),
                0 <= i <= nf,
                r@ == Set::new(
                    |u: Seq<char>|
                        exists|i2: int, j: int|
                            0 <= i2 < i && 0 <= j < self.spec_filters()[i2].spec_services().len()
                                && (#[trigger] self.spec_filters()[i2].spec_services()[j]) == u,
                ),
            decreases nf - i,
        {
            let f = self.filters.filter_at(i);
            let services = f.get_services();
            let ns = services.len();
            let mut j: usize = 0;
            while j < ns
                invariant
                    r.wf(),
                    nf == self.spec_filters().len(),
                    0 <= i < nf,
                    ns == services@.len(),
                    services@.len() == self.spec_filters()[i as int].spec_services().len(),
                    forall|j2: int|
                        0 <= j2 < ns ==> (#[trigger] services@[j2])@ == self.spec_filters()[i as int].spec_services()[j2],
                    0 <= j <= ns,
                    r@ == Set::new(
                        |u: Seq<char>|
                            {
                                ||| exists|i2: int, j2: int|
                                    0 <= i2 < i && 0 <= j2 < self.spec_filters()[i2].spec_services().len()
                                        && (#[trigger] self.spec_filters()[i2].spec_services()[j2]) == u
                                ||| exists|j2: int|
                                    0 <= j2 < j && self.spec_filters()[i as int].spec_services()[j2] == u
                            },
                    ),
                decreases ns - j,
            {
                r.insert(services[j].clone());
                proof {
                    assert(r@ =~= Set::new(
                        |u: Seq<char>|
                            {
                                ||| exists|i2: int, j2: int|
                                    0 <= i2 < i && 0 <= j2 < self.spec_filters()[i2].spec_services().len()
                                        && (#[trigger] self.spec_filters()[i2].spec_services()[j2]) == u
                                ||| exists|j2: int|
                                    0 <= j2 < j + 1 && self.spec_filters()[i as int].spec_services()[j2] == u
                            },
                    ));
                }
                j = j + 1;
            }
            proof {
                assert(r@ =~= Set::new(
                    |u: Seq<char>|
                        exists|i2: int, j2: int|
                            0 <= i2 < i + 1 && 0 <= j2 < self.spec_filters()[i2].spec_services().len()
                                && (#[trigger] self.spec_filters()[i2].spec_services()[j2]) == u,
                ));
            }
            i = i + 1;
        }
        let no = self.optional_services.len();
        let mut k: usize = 0;
        let ghost filters_part = r@;
        while k < no
            invariant
                r.wf(),
                no == self.optional_services@.len(),
                0 <= k <= no,
                r@ == filters_part.union(
                    Set::new(
                        |u: Seq<char>|
                            exists|j: int|
                                0 <= j < k && (#[trigger] self.optional_services@[j])@ == u,
                    ),
                ),
            decreases no - k,
        {
            r.insert(self.optional_services[k].clone());
            proof {
                assert(r@ =~= filters_part.union(
                    Set::new(
                        |u: Seq<char>|
                            exists|j: int|
                                0 <= j < k + 1 && (#[trigger] self.optional_services@[j])@ == u,
                    ),
                ));
            }
            k = k + 1;
        }
        proof {
            assert forall|u: Seq<char>|
                self.spec_optional_services().contains(u) implies exists|j: int|
                0 <= j < no && (#[trigger] self.optional_services@[j])@ == u by {
                let j = choose|j: int|
                    0 <= j < self.spec_optional_services().len() && self.spec_optional_services()[j]
                        == u;
                assert((self.optional_services@[j])@ == u);
            }
            assert forall|u: Seq<char>|
                (exists|j: int|
                    0 <= j < no && (#[trigger] self.optional_services@[j])@ == u) implies self
                .spec_optional_services().contains(u) by {
                let j = choose|j: int|
                    0 <= j < no && (#[trigger] self.optional_services@[j])@ == u;
                assert(self.spec_optional_services()[j] == u);
            }
            assert(r@ =~= spec_services_of_request(
                self.spec_filters(),
                self.spec_optional_services(),
            ));
        }
        r
    }
}

} // verus!
