//! Sequence ids: which are handed out, which are held, and which never come back.
use std::collections::HashSet;

use vstd::prelude::*;

verus! {

broadcast use vstd::std_specs::hash::group_hash_axioms;

/// How many ids, outside those handed out in order, are kept from coming back.
pub const MAX_RETIRED_SEQUENCE_IDS: usize = 65_536;

/// The most ids that one message can ask for by name.
pub const MAX_BATCH: usize = 255;

/// The sequence ids of one connection. Most are handed out in order; a caller may also name a
/// run of them.
pub struct SequenceRegistry {
    next_automatic: Option<u32>,
    automatic_start: u32,
    automatic_used_through: Option<u32>,
    reserved: HashSet<u32>,
    retired: HashSet<u32>,
}

/// The right to use one sequence id.
#[derive(Debug)]
pub struct SequenceLease {
    sequence_id: u32,
    manual: bool,
    release_on_drop: bool,
}

/// What a lease says.
pub struct LeaseView {
    /// The id that it is for.
    pub sequence_id: u32,
    /// Whether the caller named the id.
    pub manual: bool,
    /// Whether giving it up frees the id.
    pub releases: bool,
}

/// What a registry knows.
#[verifier::ext_equal]
pub struct SequenceView {
    /// The first id in order.
    pub start: u32,
    /// The last id in order that was passed.
    pub used_through: Option<u32>,
    /// The ids that someone holds.
    pub reserved: Set<u32>,
    /// The ids, outside those passed in order, that never come back.
    pub retired: Set<u32>,
}

/// Id `i` of the run that starts at `base`, which may run over into 0.
pub open spec fn batch_id(base: u32, i: int) -> u32 {
    ((base + i) % 0x1_0000_0000) as u32
}

/// The ids of a run.
pub open spec fn batch_ids(base: u32, count: int) -> Set<u32> {
    Set::new(|id: u32| exists|i: int| 0 <= i < count && #[trigger] batch_id(base, i) == id)
}

impl SequenceView {
    /// The id that comes next in order; none when all are used up.
    pub open spec fn next(self) -> Option<u32> {
        match self.used_through {
            None => Some(self.start),
            Some(last) => if last == u32::MAX {
                None
            } else {
                Some((last + 1) as u32)
            },
        }
    }

    /// Whether an id was passed in order.
    pub open spec fn used(self, id: u32) -> bool {
        self.used_through matches Some(last) && self.start <= id <= last
    }

    /// Whether an id never comes back.
    pub open spec fn spent(self, id: u32) -> bool {
        self.used(id) || self.retired.contains(id)
    }

    /// Whether an id can be handed out.
    pub open spec fn free(self, id: u32) -> bool {
        !self.spent(id) && !self.reserved.contains(id)
    }

    /// Whether a lease is for an id that is held and was passed in order or named by the caller.
    pub open spec fn gave(self, lease: LeaseView) -> bool {
        &&& self.reserved.contains(lease.sequence_id)
        &&& lease.manual || self.used(lease.sequence_id)
    }

    /// An id is not held and retired at once, and not more are retired than may be.
    pub open spec fn wf(self) -> bool {
        &&& self.start >= 1
        &&& self.used_through matches Some(last) ==> self.start <= last
        &&& forall|id: u32|
            #![trigger self.reserved.contains(id)]
            #![trigger self.retired.contains(id)]
            !(self.reserved.contains(id) && self.retired.contains(id))
        &&& self.retired.finite()
        &&& self.retired.len() <= MAX_RETIRED_SEQUENCE_IDS
    }

    /// What handing out the next id in order does: those before it that are held or retired are
    /// passed, and they are spent from then on.
    pub open spec fn reserves_next(self, after: SequenceView, lease: Option<LeaseView>) -> bool {
        match (self.next(), lease) {
            (Some(next), Some(lease)) => {
                let id = lease.sequence_id;
                &&& next <= id
                &&& self.free(id)
                &&& forall|i: u32| next <= i < id ==> !(#[trigger] self.free(i))
                &&& lease == LeaseView { sequence_id: id, manual: false, releases: true }
                &&& after == SequenceView {
                    start: self.start,
                    used_through: Some(id),
                    reserved: self.reserved.insert(id),
                    retired: self.retired.difference(Set::new(|i: u32| next <= i <= id)),
                }
            },
            (Some(next), None) => {
                &&& forall|i: u32| next <= i ==> !(#[trigger] self.free(i))
                &&& after == SequenceView {
                    start: self.start,
                    used_through: Some(u32::MAX),
                    reserved: self.reserved,
                    retired: self.retired.difference(Set::new(|i: u32| next <= i)),
                }
            },
            (None, Some(_)) => false,
            (None, None) => after == self,
        }
    }

    /// Whether a run of ids can be handed out: there are no more than one message can have, and
    /// each is free.
    pub open spec fn has_batch(self, base: u32, count: int) -> bool {
        count <= MAX_BATCH && forall|i: int|
            0 <= i < count ==> self.free(#[trigger] batch_id(base, i))
    }

    /// The registry when a run of ids was handed out, if it could be.
    pub open spec fn with_batch(self, base: u32, count: int) -> SequenceView {
        if self.has_batch(base, count) {
            SequenceView { reserved: self.reserved.union(batch_ids(base, count)), ..self }
        } else {
            self
        }
    }

    /// The registry when a lease was given up: the id is free, unless the lease was retired.
    pub open spec fn without(self, lease: LeaseView) -> SequenceView {
        if lease.releases {
            SequenceView { reserved: self.reserved.remove(lease.sequence_id), ..self }
        } else {
            self
        }
    }

    /// Whether an id can be taken out of use for good.
    pub open spec fn can_retire(self, id: u32) -> bool {
        self.spent(id) || self.retired.len() < MAX_RETIRED_SEQUENCE_IDS
    }

    /// The registry when an id was taken out of use for good, if it could be.
    pub open spec fn with_retired(self, id: u32) -> SequenceView {
        if self.can_retire(id) {
            SequenceView {
                reserved: self.reserved.remove(id),
                retired: if self.spent(id) {
                    self.retired
                } else {
                    self.retired.insert(id)
                },
                ..self
            }
        } else {
            self
        }
    }
}

impl View for SequenceLease {
    type V = LeaseView;

    closed spec fn view(&self) -> LeaseView {
        LeaseView {
            sequence_id: self.sequence_id,
            manual: self.manual,
            releases: self.release_on_drop,
        }
    }
}

impl View for SequenceRegistry {
    type V = SequenceView;

    closed spec fn view(&self) -> SequenceView {
        SequenceView {
            start: self.automatic_start,
            used_through: self.automatic_used_through,
            reserved: self.reserved@,
            retired: self.retired@,
        }
    }
}

/// The views of some leases.
pub open spec fn lease_views(leases: Seq<SequenceLease>) -> Seq<LeaseView> {
    leases.map_values(|l: SequenceLease| l@)
}

impl SequenceLease {
    /// The id that the lease is for.
    pub fn id(&self) -> (id: u32)
        ensures
            id == self@.sequence_id,
    {
        self.sequence_id
    }

    /// Whether the caller named the id.
    pub fn is_manual(&self) -> (manual: bool)
        ensures
            manual == self@.manual,
    {
        self.manual
    }

    /// Takes the id out of use for good, so that a late response cannot be taken for that to
    /// another message. Whether it could be.
    pub fn retire(&mut self, registry: &mut SequenceRegistry) -> (retired: bool)
        requires
            old(registry).wf(),
        ensures
            final(self)@ == (LeaseView { releases: false, ..old(self)@ }),
            final(registry).wf(),
            retired == old(registry)@.can_retire(old(self)@.sequence_id),
            final(registry)@ == old(registry)@.with_retired(old(self)@.sequence_id),
    {
        self.release_on_drop = false;
        registry.retire(self.sequence_id)
    }

    /// Gives up the lease.
    pub fn give_up(self, registry: &mut SequenceRegistry)
        requires
            old(registry).wf(),
        ensures
            final(registry).wf(),
            final(registry)@ == old(registry)@.without(self@),
    {
        self.free_in(registry);
    }

    /// Frees the id of a lease that is about to be given up.
    pub(crate) fn free_in(&self, registry: &mut SequenceRegistry)
        requires
            old(registry).wf(),
        ensures
            final(registry).wf(),
            final(registry)@ == old(registry)@.without(self@),
    {
        if self.release_on_drop {
            registry.release(self.sequence_id);
        }
    }
}

impl SequenceRegistry {
    /// The next id is the one behind those that were passed.
    pub closed spec fn wf(self) -> bool {
        self@.wf() && self.next_automatic == self@.next()
    }

    /// A registry whose ids in order start at `next`, or at 1 instead of 0.
    pub fn new(next: u32) -> (registry: SequenceRegistry)
        ensures
            registry.wf(),
            registry@ == (SequenceView {
                start: if next == 0 {
                    1
                } else {
                    next
                },
                used_through: None,
                reserved: Set::empty(),
                retired: Set::empty(),
            }),
    {
        let next: u32 = if next < 1 {
            1
        } else {
            next
        };
        SequenceRegistry {
            next_automatic: Some(next),
            automatic_start: next,
            automatic_used_through: None,
            reserved: HashSet::new(),
            retired: HashSet::new(),
        }
    }

    /// Whether an id was passed in order.
    fn is_used(&self, id: u32) -> (used: bool)
        ensures
            used == self@.used(id),
    {
        match self.automatic_used_through {
            Some(last) => id >= self.automatic_start && id <= last,
            None => false,
        }
    }

    /// Whether a lease is for an id that is held and was passed in order or named by the caller.
    pub fn owns(&self, lease: &SequenceLease) -> (owned: bool)
        ensures
            owned == self@.gave(lease@),
    {
        self.reserved.contains(&lease.sequence_id) && (lease.manual || self.is_used(
            lease.sequence_id,
        ))
    }

    /// Hands out the next id in order.
    pub fn reserve_next(&mut self) -> (lease: Option<SequenceLease>)
        requires
            old(self).wf(),
        ensures
            final(self).wf(),
            old(self)@.reserves_next(
                final(self)@,
                match lease {
                    Some(l) => Some(l@),
                    None => None,
                },
            ),
    {
        let ghost before = self@;
        loop
            invariant
                before == old(self)@,
                before.wf(),
                self.wf(),
                self@.start == before.start,
                self@.reserved == before.reserved,
                match before.next() {
                    None => self@ == before,
                    Some(next) => {
                        let to = match self@.next() {
                            Some(to) => to as int,
                            None => u32::MAX + 1,
                        };
                        &&& next <= to
                        &&& forall|i: u32| next <= i < to ==> !(#[trigger] before.free(i))
                        &&& self@.retired == before.retired.difference(
                            Set::new(|i: u32| next <= i < to),
                        )
                    },
                },
            decreases
                (match self@.next() {
                    Some(to) => u32::MAX - to + 1,
                    None => 0,
                }),
        {
            let sequence_id: u32 = match self.next_automatic {
                Some(id) => id,
                None => {
                    assert(before.next() matches Some(next) ==> self@.retired
                        =~= before.retired.difference(Set::new(|i: u32| next <= i)));
                    return None;
                },
            };
            let ghost next = before.next()->0;
            assert(!before.used(sequence_id));
            assert(before.retired.contains(sequence_id) == self@.retired.contains(sequence_id));
            self.automatic_used_through = Some(sequence_id);
            self.next_automatic = sequence_id.checked_add(1);
            let was_retired: bool = self.retired.remove(&sequence_id);
            assert(self@.retired =~= before.retired.difference(
                Set::new(|i: u32| next <= i <= sequence_id),
            ));
            assert(Set::new(|i: u32| next <= i <= sequence_id) =~= Set::new(
                |i: u32| next <= i < sequence_id + 1,
            ));
            if was_retired {
                continue;
            }
            if self.reserved.insert(sequence_id) {
                return Some(
                    SequenceLease { sequence_id, manual: false, release_on_drop: true },
                );
            }
        }
    }

    /// Hands out `count` ids in a row, the first of which the caller names.
    pub fn reserve_batch(&mut self, base: u32, count: usize) -> (leases: Option<Vec<SequenceLease>>)
        requires
            old(self).wf(),
        ensures
            final(self).wf(),
            final(self)@ == old(self)@.with_batch(base, count as int),
            if old(self)@.has_batch(base, count as int) {
                leases matches Some(l) && lease_views(l@) == Seq::new(
                    count as nat,
                    |i: int|
                        LeaseView {
                            sequence_id: batch_id(base, i),
                            manual: true,
                            releases: true,
                        },
                )
            } else {
                leases is None
            },
    {
        if count > MAX_BATCH {
            return None;
        }
        let ghost before = self@;
        let mut i: usize = 0;
        while i < count
            invariant
                i <= count <= MAX_BATCH,
                before == old(self)@,
                self@ == before,
                self.wf(),
                forall|j: int| 0 <= j < i ==> before.free(#[trigger] batch_id(base, j)),
            decreases count - i,
        {
            let id: u32 = base.wrapping_add(i as u32);
            assert(id == batch_id(base, i as int));
            if self.is_used(id) || self.reserved.contains(&id) || self.retired.contains(&id) {
                return None;
            }
            i = i + 1;
        }
        let mut leases: Vec<SequenceLease> = Vec::new();
        let mut i: usize = 0;
        assert(before.reserved.union(batch_ids(base, 0)) =~= before.reserved);
        while i < count
            invariant
                i <= count <= MAX_BATCH,
                before.wf(),
                before.has_batch(base, count as int),
                self.next_automatic == before.next(),
                self@ == (SequenceView {
                    reserved: before.reserved.union(batch_ids(base, i as int)),
                    ..before
                }),
                leases@.len() == i,
                forall|j: int|
                    0 <= j < i ==> (#[trigger] leases@[j])@ == (LeaseView {
                        sequence_id: batch_id(base, j),
                        manual: true,
                        releases: true,
                    }),
            decreases count - i,
        {
            let id: u32 = base.wrapping_add(i as u32);
            assert(id == batch_id(base, i as int));
            self.reserved.insert(id);
            leases.push(SequenceLease { sequence_id: id, manual: true, release_on_drop: true });
            i = i + 1;
            assert(self@.reserved =~= before.reserved.union(batch_ids(base, i as int)));
        }
        assert(lease_views(leases@) =~= Seq::new(
            count as nat,
            |i: int| LeaseView { sequence_id: batch_id(base, i), manual: true, releases: true },
        ));
        Some(leases)
    }

    /// Frees an id.
    fn release(&mut self, sequence_id: u32)
        requires
            old(self).wf(),
        ensures
            final(self).wf(),
            final(self)@ == (SequenceView {
                reserved: old(self)@.reserved.remove(sequence_id),
                ..old(self)@
            }),
    {
        self.reserved.remove(&sequence_id);
    }

    /// Takes an id out of use for good. Whether it could be.
    fn retire(&mut self, sequence_id: u32) -> (retired: bool)
        requires
            old(self).wf(),
        ensures
            final(self).wf(),
            retired == old(self)@.can_retire(sequence_id),
            final(self)@ == old(self)@.with_retired(sequence_id),
    {
        if self.is_used(sequence_id) {
            self.reserved.remove(&sequence_id);
            return true;
        }
        if self.retired.contains(&sequence_id) {
            self.reserved.remove(&sequence_id);
            return true;
        }
        if self.retired.len() >= MAX_RETIRED_SEQUENCE_IDS {
            return false;
        }
        self.reserved.remove(&sequence_id);
        self.retired.insert(sequence_id);
        true
    }
}

/// What a well-formed registry knows is well-formed.
pub proof fn registry_wf(registry: SequenceRegistry)
    requires
        registry.wf(),
    ensures
        registry@.wf(),
{
}

// ---- laws ----

/// Whether one operation of the registry leads from `before` to `after`.
pub open spec fn registry_step(before: SequenceView, after: SequenceView) -> bool {
    ||| exists|lease: Option<LeaseView>| #[trigger] before.reserves_next(after, lease)
    ||| exists|base: u32, count: int| after == #[trigger] before.with_batch(base, count)
    ||| exists|lease: LeaseView| after == #[trigger] before.without(lease)
    ||| exists|id: u32| after == #[trigger] before.with_retired(id)
}

/// An id that is spent stays spent, whatever is done to the registry.
pub proof fn spent_stays_spent(before: SequenceView, after: SequenceView, id: u32)
    requires
        before.wf(),
        registry_step(before, after),
        before.spent(id),
    ensures
        after.spent(id),
{
}

/// An id that is handed out in order was neither held nor spent before, and is both from then
/// on: it is never handed out again, not even when it is given up.
pub proof fn next_id_is_new(before: SequenceView, after: SequenceView, lease: LeaseView)
    requires
        before.wf(),
        before.reserves_next(after, Some(lease)),
    ensures
        before.free(lease.sequence_id),
        after.spent(lease.sequence_id),
        after.reserved.contains(lease.sequence_id),
        after.gave(lease),
{
}

/// The ids of a run that is handed out differ from one another, were neither held nor spent
/// before, and are held from then on.
pub proof fn batch_ids_are_new(before: SequenceView, base: u32, count: int, i: int, j: int)
    requires
        before.wf(),
        before.has_batch(base, count),
        0 <= i < j < count,
    ensures
        batch_id(base, i) != batch_id(base, j),
        before.free(batch_id(base, i)) && before.free(batch_id(base, j)),
        before.with_batch(base, count).reserved.contains(batch_id(base, i)),
        before.with_batch(base, count).reserved.contains(batch_id(base, j)),
{
}

/// An id that was retired is spent, and nobody holds it.
pub proof fn retired_id_is_spent(before: SequenceView, id: u32)
    requires
        before.wf(),
        before.can_retire(id),
    ensures
        before.with_retired(id).spent(id),
        !before.with_retired(id).reserved.contains(id),
{
}

/// The ids of a run count up from its base by one, and 0 comes behind the last. A run can be had
/// if it has at most 255 ids and none of them is held or spent; then just its ids are held in
/// addition, and otherwise nothing changes.
pub proof fn runs_count_up(state: SequenceView, base: u32, count: int, i: int, id: u32)
    requires
        0 <= i,
        0 <= count,
    ensures
        batch_id(base, 0) == base,
        batch_id(base, i + 1) == if batch_id(base, i) == 0xffff_ffff {
            0int
        } else {
            batch_id(base, i) + 1
        },
        count > 255 ==> !state.has_batch(base, count),
        state.has_batch(base, count) && i < count ==> !state.reserved.contains(batch_id(base, i))
            && !state.spent(batch_id(base, i)),
        !state.has_batch(base, count) ==> state.with_batch(base, count) == state,
        state.has_batch(base, count) ==> {
            let after = state.with_batch(base, count);
            &&& after.reserved.contains(id) <==> state.reserved.contains(id) || (exists|k: int|
                0 <= k < count && #[trigger] batch_id(base, k) == id)
            &&& after.start == state.start && after.used_through == state.used_through
                && after.retired == state.retired
        },
{
}

/// A run of at most 255 ids can be had where each is free.
pub proof fn free_runs_are_granted(state: SequenceView, base: u32, count: int)
    requires
        0 <= count <= 255,
        forall|i: int|
            0 <= i < count ==> !state.reserved.contains(#[trigger] batch_id(base, i))
                && !state.spent(batch_id(base, i)),
    ensures
        state.has_batch(base, count),
{
}

/// Ids in order only rise: each is above the last that was passed, or from the start on, and no
/// free id is skipped. It is held in addition to those that are; when there is none, no id from
/// there on is free, and none ever comes again.
pub proof fn ids_in_order_rise(
    before: SequenceView,
    after: SequenceView,
    lease: Option<LeaseView>,
    other: u32,
)
    requires
        before.wf(),
        before.reserves_next(after, lease),
    ensures
        ({
            let from: int = match before.used_through {
                None => before.start as int,
                Some(last) => last + 1,
            };
            &&& lease matches Some(lease) ==> {
                let id = lease.sequence_id;
                &&& from <= id
                &&& !before.reserved.contains(id) && !before.spent(id)
                &&& from <= other < id ==> before.reserved.contains(other) || before.spent(other)
                &&& after.used_through == Some(id)
                &&& after.reserved.contains(other) <==> before.reserved.contains(other) || other
                    == id
                &&& !lease.manual && lease.releases
            }
            &&& lease is None ==> {
                &&& from <= other ==> before.reserved.contains(other) || before.spent(other)
                &&& after.reserved == before.reserved
                &&& after.next() is None
            }
            &&& after.start == before.start
        }),
{
    assert(before.free(other) || before.spent(other) || before.reserved.contains(other));
}

/// Giving up a lease frees its id, if it is one that comes back, and touches no other.
pub proof fn giving_up_frees_one_id(state: SequenceView, lease: LeaseView, other: u32)
    ensures
        lease.releases ==> !state.without(lease).reserved.contains(lease.sequence_id),
        !lease.releases ==> state.without(lease) == state,
        other != lease.sequence_id ==> state.without(lease).reserved.contains(other)
            == state.reserved.contains(other),
        state.without(lease).spent(other) == state.spent(other),
{
}

/// At most 65536 ids are retired; one that is spent anyway needs no room among them. Retiring an
/// id touches no other, and changes nothing where there is no room.
pub proof fn retiring_has_a_limit(state: SequenceView, id: u32, other: u32)
    ensures
        state.can_retire(id) <==> state.spent(id) || state.retired.len() < 65536,
        !state.can_retire(id) ==> state.with_retired(id) == state,
        state.can_retire(id) ==> state.with_retired(id).spent(id) && !state.with_retired(
            id,
        ).reserved.contains(id),
        other != id ==> state.with_retired(id).spent(other) == state.spent(other)
            && state.with_retired(id).reserved.contains(other) == state.reserved.contains(other),
        state.spent(id) <==> state.retired.contains(id) || (state.used_through matches Some(last)
            && state.start <= id <= last),
        state.free(id) <==> !state.spent(id) && !state.reserved.contains(id),
{
}

} // verus!
