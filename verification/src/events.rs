//! Discovery events and what a run of them amounts to.

use vstd::prelude::*;
use crate::discovery::{Device, DeviceModel, distinct_ids, has_id, index_by_id, index_of, lemma_index_of};

verus! {

/// One report of the discovery feed.
#[derive(Debug)]
pub enum Event {
    /// A receiver has appeared.
    Add(Device),
    /// The receiver with this identifier has gone.
    Remove(String),
}

/// What an `Event` is in contracts.
pub enum EventModel {
    Add(DeviceModel),
    Remove(Seq<char>),
}

impl View for Event {
    type V = EventModel;

    open spec fn view(&self) -> EventModel {
        match self {
            Event::Add(device) => EventModel::Add(device@),
            Event::Remove(id) => EventModel::Remove(id@),
        }
    }
}

impl Clone for Event {
    fn clone(&self) -> (copy: Event)
        ensures
            copy@ == self@,
    {
        match self {
            Event::Add(device) => Event::Add(device.clone()),
            Event::Remove(id) => Event::Remove(id.clone()),
        }
    }
}

impl EventModel {
    /// The identifier that the event speaks of.
    pub open spec fn id(self) -> Seq<char> {
        match self {
            EventModel::Add(device) => device.id,
            EventModel::Remove(id) => id,
        }
    }
}

/// The models of a vector of events, in order.
pub open spec fn event_models(events: Seq<Event>) -> Seq<EventModel> {
    Seq::new(events.len(), |i: int| events[i]@)
}

/// The registry after one event: an `Add` of a known identifier and a
/// `Remove` of an unknown one change nothing.
pub open spec fn step(
    devices: Map<Seq<char>, DeviceModel>,
    event: EventModel,
) -> Map<Seq<char>, DeviceModel> {
    match event {
        EventModel::Add(device) => if devices.contains_key(device.id) {
            devices
        } else {
            devices.insert(device.id, device)
        },
        EventModel::Remove(id) => devices.remove(id),
    }
}

/// The registry after a run of events, applied in order.
pub open spec fn replay(
    devices: Map<Seq<char>, DeviceModel>,
    events: Seq<EventModel>,
) -> Map<Seq<char>, DeviceModel>
    decreases events.len(),
{
    if events.len() == 0 {
        devices
    } else {
        step(replay(devices, events.drop_last()), events.last())
    }
}

/// How many events of a run change the registry when they are applied.
pub open spec fn changes_in(devices: Map<Seq<char>, DeviceModel>, events: Seq<EventModel>) -> nat
    decreases events.len(),
{
    if events.len() == 0 {
        0
    } else {
        let before = replay(devices, events.drop_last());
        changes_in(devices, events.drop_last()) + if step(before, events.last()) != before {
            1nat
        } else {
            0nat
        }
    }
}

/// A `Remove` of `id` stands strictly between the positions `lo` and `hi`.
pub open spec fn removed_between(events: Seq<EventModel>, id: Seq<char>, lo: int, hi: int) -> bool {
    exists|m: int|
        lo < m < hi && 0 <= m < events.len() && #[trigger] events[m] == EventModel::Remove(id)
}

/// The event at `i` is an `Add` that still counts at the end of the run: no
/// `Remove` of its identifier follows it, and every earlier `Add` of that
/// identifier was taken back by a `Remove` before `i`.
pub open spec fn in_force(events: Seq<EventModel>, i: int) -> bool {
    &&& 0 <= i < events.len()
    &&& events[i] is Add
    &&& !removed_between(events, events[i].id(), i, events.len() as int)
    &&& forall|k: int|
        0 <= k < i && (#[trigger] events[k]) is Add && events[k].id() == events[i].id()
            ==> removed_between(events, events[i].id(), k, i)
}

/// Some `Add` of `id` is in force.
pub open spec fn known_at_end(events: Seq<EventModel>, id: Seq<char>) -> bool {
    exists|i: int| in_force(events, i) && (#[trigger] events[i]).id() == id
}

/// The net effect of a run of events on an empty registry: the devices of
/// the `Add` events that are in force, by identifier.
pub open spec fn net_effect(events: Seq<EventModel>) -> Map<Seq<char>, DeviceModel> {
    Map::new(
        |id: Seq<char>| known_at_end(events, id),
        |id: Seq<char>|
            events[choose|i: int| in_force(events, i) && (#[trigger] events[i]).id() == id]->Add_0,
    )
}

/// At most one `Add` of an identifier is in force.
pub proof fn lemma_in_force_unique(events: Seq<EventModel>, i: int, j: int)
    requires
        in_force(events, i),
        in_force(events, j),
        events[i].id() == events[j].id(),
    ensures
        i == j,
{
    if i < j {
        assert(removed_between(events, events[j].id(), i, j));
        let m = choose|m: int|
            i < m < j && 0 <= m < events.len() && #[trigger] events[m] == EventModel::Remove(
                events[j].id(),
            );
        assert(removed_between(events, events[i].id(), i, events.len() as int));
    } else if j < i {
        assert(removed_between(events, events[i].id(), j, i));
        let m = choose|m: int|
            j < m < i && 0 <= m < events.len() && #[trigger] events[m] == EventModel::Remove(
                events[i].id(),
            );
        assert(removed_between(events, events[j].id(), j, events.len() as int));
    }
}

/// The device that the net effect holds for the identifier of an `Add` in force.
pub proof fn lemma_net_effect_at(events: Seq<EventModel>, i: int)
    requires
        in_force(events, i),
    ensures
        net_effect(events).contains_key(events[i].id()),
        net_effect(events)[events[i].id()] == events[i]->Add_0,
{
    let id = events[i].id();
    assert(known_at_end(events, id));
    let j = choose|j: int| in_force(events, j) && (#[trigger] events[j]).id() == id;
    lemma_in_force_unique(events, i, j);
}

/// An `Add` that no `Remove` follows makes its identifier known at the end.
pub proof fn lemma_unremoved_add_is_known(events: Seq<EventModel>, k: int)
    requires
        0 <= k < events.len(),
        events[k] is Add,
        !removed_between(events, events[k].id(), k, events.len() as int),
    ensures
        known_at_end(events, events[k].id()),
    decreases k,
{
    let id = events[k].id();
    if in_force(events, k) {
    } else {
        let e = choose|e: int|
            0 <= e < k && (#[trigger] events[e]) is Add && events[e].id() == id
                && !removed_between(events, id, e, k);
        if removed_between(events, id, e, events.len() as int) {
            let m = choose|m: int|
                e < m < events.len() && 0 <= m < events.len() && #[trigger] events[m]
                    == EventModel::Remove(id);
            if m < k {
                assert(removed_between(events, id, e, k));
            } else if m > k {
                assert(removed_between(events, id, k, events.len() as int));
            }
        }
        lemma_unremoved_add_is_known(events, e);
    }
}

/// How the last event bears on the earlier ones: a final `Remove` takes the
/// `Add` events of its identifier out of force, a final `Add` changes nothing
/// for them.
pub proof fn lemma_in_force_before_last(events: Seq<EventModel>, i: int)
    requires
        0 <= i < events.len() - 1,
    ensures
        in_force(events, i) <==> in_force(events.drop_last(), i) && events.last()
            != EventModel::Remove(events[i].id()),
{
    let before = events.drop_last();
    let n = events.len() as int;
    let id = events[i].id();
    assert(before[i] == events[i]);
    assert forall|k: int, hi: int| 0 <= k && hi <= n - 1 implies removed_between(
        events,
        id,
        k,
        hi,
    ) == removed_between(before, id, k, hi) by {
        if removed_between(events, id, k, hi) {
            let m = choose|m: int|
                k < m < hi && 0 <= m < events.len() && #[trigger] events[m]
                    == EventModel::Remove(id);
            assert(before[m] == events[m]);
        }
        if removed_between(before, id, k, hi) {
            let m = choose|m: int|
                k < m < hi && 0 <= m < before.len() && #[trigger] before[m]
                    == EventModel::Remove(id);
            assert(before[m] == events[m]);
        }
    }
    assert forall|k: int| 0 <= k < i implies (#[trigger] events[k]) == before[k] by {}
    assert forall|k: int| 0 <= k < i implies (#[trigger] before[k]) == events[k] by {}
    if removed_between(events, id, i, n) {
        let m = choose|m: int|
            i < m < n && 0 <= m < events.len() && #[trigger] events[m] == EventModel::Remove(id);
        if m < n - 1 {
            assert(before[m] == events[m]);
            assert(removed_between(before, id, i, n - 1));
        }
    }
    if removed_between(before, id, i, n - 1) {
        let m = choose|m: int|
            i < m < n - 1 && 0 <= m < before.len() && #[trigger] before[m] == EventModel::Remove(
                id,
            );
        assert(before[m] == events[m]);
        assert(removed_between(events, id, i, n));
    }
    if events.last() == EventModel::Remove(id) {
        assert(events[n - 1] == EventModel::Remove(id));
        assert(removed_between(events, id, i, n));
    }
}

/// Replaying a run of events on an empty registry gives its net effect: a
/// device is known at the end exactly if an `Add` of it is in force, which
/// no later `Remove` undoes and no earlier standing `Add` shadows.
pub proof fn law_replay_is_net_effect(events: Seq<EventModel>)
    ensures
        replay(Map::empty(), events) == net_effect(events),
    decreases events.len(),
{
    let empty = Map::<Seq<char>, DeviceModel>::empty();
    if events.len() == 0 {
        assert(net_effect(events) =~= empty);
    } else {
        let before = events.drop_last();
        let n = events.len() as int;
        let last = events.last();
        law_replay_is_net_effect(before);
        assert forall|i: int| 0 <= i < n - 1 implies (in_force(events, i) <==> in_force(before, i)
            && last != EventModel::Remove((#[trigger] events[i]).id())) by {
            lemma_in_force_before_last(events, i);
        }
        assert forall|i: int| 0 <= i < n - 1 implies (#[trigger] before[i]) == events[i] by {}
        let target = step(net_effect(before), last);
        assert forall|id: Seq<char>| known_at_end(events, id) <==> #[trigger] target.contains_key(
            id,
        ) by {
            if known_at_end(events, id) {
                let i = choose|i: int| in_force(events, i) && (#[trigger] events[i]).id() == id;
                if i < n - 1 {
                    assert(before[i] == events[i]);
                    assert(known_at_end(before, id));
                }
            }
            if target.contains_key(id) {
                if known_at_end(before, id) {
                    let i = choose|i: int| in_force(before, i) && (#[trigger] before[i]).id() == id;
                    assert(before[i] == events[i]);
                    assert(in_force(events, i));
                    assert(events[i].id() == id);
                } else {
                    assert(last is Add && last.id() == id);
                    lemma_last_add_in_force(events);
                    assert(events[n - 1].id() == id);
                }
            }
        }
        assert forall|id: Seq<char>| known_at_end(events, id) implies #[trigger] net_effect(
            events,
        )[id] == target[id] by {
            let i = choose|i: int| in_force(events, i) && (#[trigger] events[i]).id() == id;
            lemma_net_effect_at(events, i);
            if i < n - 1 {
                assert(before[i] == events[i]);
                lemma_net_effect_at(before, i);
            } else {
                if known_at_end(before, id) {
                    let j = choose|j: int| in_force(before, j) && (#[trigger] before[j]).id() == id;
                    assert(before[j] == events[j]);
                    lemma_in_force_unique(events, i, j);
                }
            }
        }
        assert(net_effect(events) =~= target);
    }
}

/// A final `Add` of an identifier that was unknown before it is in force.
pub proof fn lemma_last_add_in_force(events: Seq<EventModel>)
    requires
        events.len() > 0,
        events.last() is Add,
        !known_at_end(events.drop_last(), events.last().id()),
    ensures
        in_force(events, events.len() - 1),
{
    let before = events.drop_last();
    let n = events.len() as int;
    let id = events.last().id();
    assert forall|k: int|
        0 <= k < n - 1 && (#[trigger] events[k]) is Add && events[k].id()
            == id implies removed_between(events, id, k, n - 1) by {
        assert(before[k] == events[k]);
        if !removed_between(before, id, k, n - 1) {
            lemma_unremoved_add_is_known(before, k);
        }
        let m = choose|m: int|
            k < m < n - 1 && 0 <= m < before.len() && #[trigger] before[m] == EventModel::Remove(
                id,
            );
        assert(before[m] == events[m]);
    }
}

/// A snapshot of a registry that took a run of events from empty holds the
/// devices of the `Add` events in force, each once, and nothing else.
pub proof fn law_snapshot_holds_what_is_in_force(
    snapshot: Seq<DeviceModel>,
    events: Seq<EventModel>,
)
    requires
        distinct_ids(snapshot),
        index_by_id(snapshot) == replay(Map::empty(), events),
    ensures
        forall|i: int|
            0 <= i < snapshot.len() ==> exists|k: int|
                in_force(events, k) && #[trigger] events[k] == EventModel::Add(
                    #[trigger] snapshot[i],
                ),
        forall|k: int|
            in_force(events, k) ==> exists|i: int|
                0 <= i < snapshot.len() && #[trigger] snapshot[i] == (#[trigger] events[k])->Add_0,
{
    law_replay_is_net_effect(events);
    assert forall|i: int| 0 <= i < snapshot.len() implies exists|k: int|
        in_force(events, k) && #[trigger] events[k] == EventModel::Add(#[trigger] snapshot[i]) by {
        lemma_index_of(snapshot, i);
        let id = snapshot[i].id;
        assert(net_effect(events).contains_key(id));
        let k = choose|k: int| in_force(events, k) && (#[trigger] events[k]).id() == id;
        lemma_net_effect_at(events, k);
        assert(events[k] == EventModel::Add(snapshot[i]));
    }
    assert forall|k: int| in_force(events, k) implies exists|i: int|
        0 <= i < snapshot.len() && #[trigger] snapshot[i] == (#[trigger] events[k])->Add_0 by {
        lemma_net_effect_at(events, k);
        let id = events[k].id();
        assert(has_id(snapshot, id));
        let i = index_of(snapshot, id);
        lemma_index_of(snapshot, i);
        assert(snapshot[i] == events[k]->Add_0);
    }
}

} // verus!
