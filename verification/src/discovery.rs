//! The registry of receivers that are currently reachable.
//!
//! A discovery feed reports receivers as they appear and disappear. The
//! registry keeps one entry per identifier and answers lookups by identifier.

use vstd::prelude::*;
use crate::address::Address;
use crate::events::{Event, changes_in, event_models, replay, step};

verus! {

/// A receiver found on the network.
#[derive(Debug)]
pub struct Device {
    pub id: String,
    pub name: String,
    pub addr: Address,
}

/// What a `Device` is in contracts.
pub struct DeviceModel {
    pub id: Seq<char>,
    pub name: Seq<char>,
    pub addr: Address,
}

impl View for Device {
    type V = DeviceModel;

    open spec fn view(&self) -> DeviceModel {
        DeviceModel { id: self.id@, name: self.name@, addr: self.addr }
    }
}

impl Clone for Device {
    fn clone(&self) -> (copy: Device)
        ensures
            copy@ == self@,
    {
        Device { id: self.id.clone(), name: self.name.clone(), addr: self.addr }
    }
}

/// The models of a vector of devices, in order.
pub open spec fn models(devices: Seq<Device>) -> Seq<DeviceModel> {
    Seq::new(devices.len(), |i: int| devices[i]@)
}

/// Some entry of `listing` has the identifier `id`.
pub open spec fn has_id(listing: Seq<DeviceModel>, id: Seq<char>) -> bool {
    exists|i: int| 0 <= i < listing.len() && (#[trigger] listing[i]).id == id
}

/// No identifier occurs twice in `listing`.
pub open spec fn distinct_ids(listing: Seq<DeviceModel>) -> bool {
    forall|i: int, j: int|
        0 <= i < listing.len() && 0 <= j < listing.len() && (#[trigger] listing[i]).id == (
        #[trigger] listing[j]).id ==> i == j
}

/// An index at which `id` stands in `listing`, where there is one.
pub open spec fn index_of(listing: Seq<DeviceModel>, id: Seq<char>) -> int {
    choose|i: int| 0 <= i < listing.len() && (#[trigger] listing[i]).id == id
}

/// The mapping from identifier to device that `listing` stands for.
pub open spec fn index_by_id(listing: Seq<DeviceModel>) -> Map<Seq<char>, DeviceModel> {
    Map::new(|id: Seq<char>| has_id(listing, id), |id: Seq<char>| listing[index_of(listing, id)])
}

/// In a listing without repeats, an identifier is found where it stands.
pub proof fn lemma_index_of(listing: Seq<DeviceModel>, i: int)
    requires
        distinct_ids(listing),
        0 <= i < listing.len(),
    ensures
        has_id(listing, listing[i].id),
        index_of(listing, listing[i].id) == i,
        index_by_id(listing)[listing[i].id] == listing[i],
{
    let id = listing[i].id;
    let j = index_of(listing, id);
    assert(0 <= j < listing.len() && listing[j].id == id);
}

/// Appending a device under a new identifier inserts it into the mapping.
pub proof fn lemma_index_push(listing: Seq<DeviceModel>, device: DeviceModel)
    requires
        distinct_ids(listing),
        !has_id(listing, device.id),
    ensures
        distinct_ids(listing.push(device)),
        index_by_id(listing.push(device)) == index_by_id(listing).insert(device.id, device),
{
    let after = listing.push(device);
    assert forall|i: int, j: int|
        0 <= i < after.len() && 0 <= j < after.len() && (#[trigger] after[i]).id == (
        #[trigger] after[j]).id implies i == j by {
        if i < listing.len() {
            assert(after[i] == listing[i]);
        }
        if j < listing.len() {
            assert(after[j] == listing[j]);
        }
    }
    let last = listing.len() as int;
    assert(after[last] == device);
    assert forall|id: Seq<char>|
        has_id(after, id) <==> #[trigger] index_by_id(listing).insert(
            device.id,
            device,
        ).contains_key(id) by {
        if has_id(after, id) {
            let i = index_of(after, id);
            if i < listing.len() {
                assert(listing[i].id == id);
            }
        }
        if has_id(listing, id) {
            let i = index_of(listing, id);
            assert(after[i].id == id);
        }
    }
    assert forall|id: Seq<char>| has_id(after, id) implies #[trigger] index_by_id(after)[id]
        == index_by_id(listing).insert(device.id, device)[id] by {
        let i = index_of(after, id);
        lemma_index_of(after, i);
        if i < listing.len() {
            assert(after[i] == listing[i]);
            lemma_index_of(listing, i);
        }
    }
    assert(index_by_id(after) =~= index_by_id(listing).insert(device.id, device));
}

/// Taking out the entry at `at` removes its identifier from the mapping.
pub proof fn lemma_index_remove(listing: Seq<DeviceModel>, at: int)
    requires
        distinct_ids(listing),
        0 <= at < listing.len(),
    ensures
        distinct_ids(listing.remove(at)),
        !has_id(listing.remove(at), listing[at].id),
        index_by_id(listing.remove(at)) == index_by_id(listing).remove(listing[at].id),
{
    let after = listing.remove(at);
    let gone = listing[at].id;
    assert forall|i: int| 0 <= i < after.len() implies #[trigger] after[i] == listing[if i < at {
        i
    } else {
        i + 1
    }] by {}
    assert forall|i: int, j: int|
        0 <= i < after.len() && 0 <= j < after.len() && (#[trigger] after[i]).id == (
        #[trigger] after[j]).id implies i == j by {
        let si = if i < at { i } else { i + 1 };
        let sj = if j < at { j } else { j + 1 };
        assert(after[i] == listing[si]);
        assert(after[j] == listing[sj]);
    }
    if has_id(after, gone) {
        let i = index_of(after, gone);
        let si = if i < at { i } else { i + 1 };
        assert(after[i] == listing[si]);
        assert(false);
    }
    assert forall|id: Seq<char>|
        has_id(after, id) <==> #[trigger] index_by_id(listing).remove(gone).contains_key(id) by {
        if has_id(after, id) {
            let i = index_of(after, id);
            let si = if i < at { i } else { i + 1 };
            assert(after[i] == listing[si]);
            assert(listing[si].id == id);
        }
        if has_id(listing, id) && id != gone {
            let si = index_of(listing, id);
            let i = if si < at { si } else { si - 1 };
            assert(after[i] == listing[si]);
        }
    }
    assert forall|id: Seq<char>| has_id(after, id) implies #[trigger] index_by_id(after)[id]
        == index_by_id(listing).remove(gone)[id] by {
        let i = index_of(after, id);
        lemma_index_of(after, i);
        let si = if i < at { i } else { i + 1 };
        assert(after[i] == listing[si]);
        lemma_index_of(listing, si);
    }
    assert(index_by_id(after) =~= index_by_id(listing).remove(gone));
}

/// A listing without repeats has as many entries as its mapping has keys.
pub proof fn lemma_index_dom_len(listing: Seq<DeviceModel>)
    requires
        distinct_ids(listing),
    ensures
        index_by_id(listing).dom().finite(),
        index_by_id(listing).dom().len() == listing.len(),
    decreases listing.len(),
{
    if listing.len() == 0 {
        assert(index_by_id(listing).dom() =~= Set::<Seq<char>>::empty());
    } else {
        let at = listing.len() - 1;
        let rest = listing.remove(at);
        lemma_index_of(listing, at);
        lemma_index_remove(listing, at);
        lemma_index_dom_len(rest);
        assert(index_by_id(listing).dom() =~= index_by_id(rest).dom().insert(listing[at].id));
    }
}

/// The registry: the receivers that are reachable now, one entry per
/// identifier, in the order in which they were first reported.
pub struct Scanner {
    devices: Vec<Device>,
}

impl View for Scanner {
    type V = Map<Seq<char>, DeviceModel>;

    /// The registry as a mapping from identifier to device.
    open spec fn view(&self) -> Map<Seq<char>, DeviceModel> {
        index_by_id(self.listing())
    }
}

impl Scanner {
    #[verifier::type_invariant]
    spec fn no_repeats(&self) -> bool {
        distinct_ids(models(self.devices@))
    }

    /// The entries in the order in which they were first reported.
    pub closed spec fn listing(&self) -> Seq<DeviceModel> {
        models(self.devices@)
    }

    /// An empty registry.
    pub fn new() -> (scanner: Scanner)
        ensures
            scanner.listing() == Seq::<DeviceModel>::empty(),
            scanner@ == Map::<Seq<char>, DeviceModel>::empty(),
    {
        let scanner = Scanner { devices: Vec::new() };
        proof {
            assert(scanner.listing() =~= Seq::<DeviceModel>::empty());
            assert(scanner@ =~= Map::<Seq<char>, DeviceModel>::empty());
        }
        scanner
    }

    /// Where the entry with identifier `id` stands, if there is one.
    fn position(&self, id: &String) -> (found: Option<usize>)
        ensures
            match found {
                Some(i) => i < self.listing().len() && self.listing()[i as int].id == id@,
                None => !has_id(self.listing(), id@),
            },
    {
        let mut i: usize = 0;
        while i < self.devices.len()
            invariant
                i <= self.devices.len(),
                forall|j: int| 0 <= j < i ==> (#[trigger] self.listing()[j]).id != id@,
            decreases self.devices.len() - i,
        {
            if self.devices[i].id == *id {
                return Some(i);
            }
            i += 1;
        }
        None
    }

    /// The number of known receivers.
    pub fn len(&self) -> (n: usize)
        ensures
            n == self.listing().len(),
            n == self@.dom().len(),
            self@.dom().finite(),
    {
        proof {
            use_type_invariant(self);
            lemma_index_dom_len(self.listing());
        }
        self.devices.len()
    }

    /// Records `device` unless a receiver with its identifier is already
    /// known; says whether it was recorded. A known receiver is left as it is.
    pub fn upsert(&mut self, device: Device) -> (added: bool)
        ensures
            added == !old(self)@.contains_key(device.id@),
            final(self)@ == if added {
                old(self)@.insert(device.id@, device@)
            } else {
                old(self)@
            },
            final(self).listing() == if added {
                old(self).listing().push(device@)
            } else {
                old(self).listing()
            },
    {
        proof {
            use_type_invariant(&*self);
        }
        match self.position(&device.id) {
            Some(_) => false,
            None => {
                proof {
                    lemma_index_push(self.listing(), device@);
                    assert(models(self.devices@.push(device)) =~= self.listing().push(device@));
                }
                let mut devices: Vec<Device> = Vec::new();
                core::mem::swap(&mut self.devices, &mut devices);
                devices.push(device);
                core::mem::swap(&mut self.devices, &mut devices);
                true
            },
        }
    }

    /// Forgets the receiver with identifier `id`, if it is known; says
    /// whether there was one. The other entries keep their order.
    pub fn remove(&mut self, id: &str) -> (removed: bool)
        ensures
            removed == old(self)@.contains_key(id@),
            final(self)@ == old(self)@.remove(id@),
            final(self).listing() == if removed {
                old(self).listing().remove(index_of(old(self).listing(), id@))
            } else {
                old(self).listing()
            },
    {
        proof {
            use_type_invariant(&*self);
        }
        let key = id.to_owned();
        match self.position(&key) {
            Some(i) => {
                proof {
                    lemma_index_of(self.listing(), i as int);
                    lemma_index_remove(self.listing(), i as int);
                    assert(models(self.devices@.remove(i as int)) =~= self.listing().remove(
                        i as int,
                    ));
                }
                let mut devices: Vec<Device> = Vec::new();
                core::mem::swap(&mut self.devices, &mut devices);
                devices.remove(i);
                core::mem::swap(&mut self.devices, &mut devices);
                true
            },
            None => {
                proof {
                    assert(self@.remove(id@) =~= self@);
                }
                false
            },
        }
    }

    /// A copy of all entries, in the order in which they were first reported.
    pub fn read_devices(&self) -> (snapshot: Vec<Device>)
        ensures
            models(snapshot@) == self.listing(),
            distinct_ids(models(snapshot@)),
            index_by_id(models(snapshot@)) == self@,
    {
        proof {
            use_type_invariant(self);
        }
        let mut snapshot: Vec<Device> = Vec::new();
        let mut i: usize = 0;
        while i < self.devices.len()
            invariant
                i <= self.devices.len(),
                snapshot.len() == i,
                forall|j: int| 0 <= j < i ==> (#[trigger] snapshot[j])@ == self.listing()[j],
            decreases self.devices.len() - i,
        {
            snapshot.push(self.devices[i].clone());
            i += 1;
        }
        proof {
            assert(models(snapshot@) =~= self.listing());
        }
        snapshot
    }

    /// The receiver with identifier `id`, if it is known.
    pub fn device(&self, id: &str) -> (found: Option<Device>)
        ensures
            match found {
                Some(device) => self@.contains_key(id@) && device@ == self@[id@],
                None => !self@.contains_key(id@),
            },
    {
        proof {
            use_type_invariant(self);
        }
        let key = id.to_owned();
        match self.position(&key) {
            Some(i) => {
                proof {
                    lemma_index_of(self.listing(), i as int);
                }
                Some(self.devices[i].clone())
            },
            None => None,
        }
    }

    /// Applies one discovery event; says whether the registry changed.
    pub fn apply(&mut self, event: Event) -> (changed: bool)
        ensures
            final(self)@ == step(old(self)@, event@),
            changed == (final(self)@ != old(self)@),
    {
        match event {
            Event::Add(device) => self.upsert(device),
            Event::Remove(id) => {
                let removed = self.remove(id.as_str());
                proof {
                    if !removed {
                        assert(old(self)@.remove(id@) =~= old(self)@);
                    }
                }
                removed
            },
        }
    }

    /// Applies a run of discovery events in order; returns how many of them
    /// changed the registry.
    pub fn apply_all(&mut self, events: &Vec<Event>) -> (changes: usize)
        ensures
            final(self)@ == replay(old(self)@, event_models(events@)),
            changes == changes_in(old(self)@, event_models(events@)),
    {
        let mut changes: usize = 0;
        let mut i: usize = 0;
        let ghost all = event_models(events@);
        while i < events.len()
            invariant
                i <= events.len(),
                all == event_models(events@),
                changes <= i,
                changes == changes_in(old(self)@, all.take(i as int)),
                self@ == replay(old(self)@, all.take(i as int)),
            decreases events.len() - i,
        {
            let event = events[i].clone();
            proof {
                assert(all.take(i + 1).drop_last() =~= all.take(i as int));
                assert(all.take(i + 1).last() == event@);
            }
            if self.apply(event) {
                changes += 1;
            }
            i += 1;
        }
        proof {
            assert(all.take(events.len() as int) =~= all);
        }
        changes
    }
}

} // verus!
