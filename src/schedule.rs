use vstd::prelude::*;

verus! {

/// What the node reports of the current epoch.
pub struct EpochInfo {
    pub epoch: u64,
    /// The current absolute slot.
    pub absolute_slot: u64,
    /// Offset of the current slot within the epoch.
    pub slot_index: u64,
}

impl EpochInfo {
    /// The absolute slot at which the epoch began.
    pub fn first_slot(&self) -> (r: u64)
        requires
            self.slot_index <= self.absolute_slot,
        ensures
            r == self.absolute_slot - self.slot_index,
    {
        self.absolute_slot - self.slot_index
    }
}

struct ScheduleEntry {
    identity: String,
    offsets: Vec<u64>,
}

/// The leaders of one epoch: for each validator identity, the ordered
/// offsets (relative to the epoch's first slot) of the slots it leads.
pub struct LeaderSchedule {
    entries: Vec<ScheduleEntry>,
}

impl View for LeaderSchedule {
    type V = Map<Seq<char>, Seq<u64>>;

    closed spec fn view(&self) -> Map<Seq<char>, Seq<u64>> {
        Map::new(
            |id: Seq<char>| exists|i: int| self.holds_at(i, id),
            |id: Seq<char>| self.entries@[choose|i: int| self.holds_at(i, id)].offsets@,
        )
    }
}

impl LeaderSchedule {
    spec fn holds_at(&self, i: int, id: Seq<char>) -> bool {
        0 <= i < self.entries@.len() && self.entries@[i].identity@ == id
    }

    /// No identity appears in two entries.
    pub closed spec fn wf(&self) -> bool {
        forall|i: int, j: int|
            0 <= i < self.entries@.len() && 0 <= j < self.entries@.len() && i != j
                ==> #[trigger] self.entries@[i].identity@ != #[trigger] self.entries@[j].identity@
    }

    /// An empty schedule.
    pub fn new() -> (s: LeaderSchedule)
        ensures
            s.wf(),
            s@ == Map::<Seq<char>, Seq<u64>>::empty(),
    {
        let s = LeaderSchedule { entries: Vec::new() };
        assert(s@ =~= Map::<Seq<char>, Seq<u64>>::empty());
        s
    }

    /// Assigns `offsets` to `identity`, replacing what it had.
    pub fn insert(&mut self, identity: String, offsets: Vec<u64>)
        requires
            old(self).wf(),
        ensures
            final(self).wf(),
            final(self)@ == old(self)@.insert(identity@, offsets@),
    {
        let ghost before = *self;
        let found = self.position(&identity);
        let ghost id = identity@;
        if let Some(k) = found {
            self.entries[k].offsets = offsets;
            proof {
                assert forall|i: int| 0 <= i < self.entries@.len() implies #[trigger] self.entries@[i].identity@
                    == before.entries@[i].identity@ by {}
                assert(self.wf());
                assert(self.holds_at(k as int, id));
                self.lemma_same_keys_or_id(&before, id, offsets@);
            }
        } else {
            self.entries.push(ScheduleEntry { identity, offsets });
            proof {
                let n = before.entries@.len() as int;
                assert forall|i: int| 0 <= i < n implies #[trigger] self.entries@[i].identity@
                    == before.entries@[i].identity@ by {}
                assert forall|i: int| 0 <= i < n implies #[trigger] before.entries@[i].identity@ != id by {
                    if before.entries@[i].identity@ == id {
                        assert(before.holds_at(i, id));
                    }
                }
                assert(self.wf());
                assert(self.holds_at(n, id));
                self.lemma_same_keys_or_id(&before, id, offsets@);
            }
        }
    }

    /// Where two well-formed schedules agree on every entry but those of `id`,
    /// and the second gives `id` the offsets `o`, the second is the first
    /// with `id` assigned `o`.
    proof fn lemma_same_keys_or_id(&self, before: &LeaderSchedule, id: Seq<char>, o: Seq<u64>)
        requires
            self.wf(),
            before.wf(),
            before.entries@.len() <= self.entries@.len(),
            self.entries@.len() <= before.entries@.len() + 1,
            forall|i: int| 0 <= i < before.entries@.len() ==> #[trigger] self.entries@[i].identity@
                == before.entries@[i].identity@,
            forall|i: int| 0 <= i < before.entries@.len() && before.entries@[i].identity@ != id
                ==> #[trigger] self.entries@[i].offsets@ == before.entries@[i].offsets@,
            self.entries@.len() == before.entries@.len() + 1 ==> self.entries@.last().identity@ == id,
            exists|i: int| self.holds_at(i, id),
            forall|i: int| #[trigger] self.holds_at(i, id) ==> self.entries@[i].offsets@ == o,
        ensures
            self@ == before@.insert(id, o),
    {
        let m = before@.insert(id, o);
        assert forall|key: Seq<char>| #[trigger] self@.dom().contains(key) <==> m.dom().contains(key) by {
            if key != id {
                if before@.dom().contains(key) {
                    let j = choose|i: int| before.holds_at(i, key);
                    assert(self.holds_at(j, key));
                }
                if self@.dom().contains(key) {
                    let j = choose|i: int| self.holds_at(i, key);
                    if j < before.entries@.len() {
                        assert(before.holds_at(j, key));
                    }
                }
            }
        }
        assert forall|key: Seq<char>| self@.dom().contains(key) implies #[trigger] self@[key] == m[key] by {
            let j = choose|i: int| self.holds_at(i, key);
            self.lemma_entry(j);
            if key != id {
                before.lemma_entry(j);
            }
        }
        assert(self@ =~= m);
    }

    proof fn lemma_entry(&self, k: int)
        requires
            self.wf(),
            0 <= k < self.entries@.len(),
        ensures
            self@.contains_key(self.entries@[k].identity@),
            self@[self.entries@[k].identity@] == self.entries@[k].offsets@,
    {
        let id = self.entries@[k].identity@;
        assert(self.holds_at(k, id));
        let j = choose|i: int| self.holds_at(i, id);
        assert(self.entries@[j].identity@ == self.entries@[k].identity@);
    }

    /// Index of the entry of `identity`, if any.
    fn position(&self, identity: &String) -> (r: Option<usize>)
        requires
            self.wf(),
        ensures
            r is Some <==> self@.contains_key(identity@),
            r matches Some(k) ==> k < self.entries@.len() && self.entries@[k as int].identity@ == identity@,
    {
        let mut k: usize = 0;
        while k < self.entries.len()
            invariant
                self.wf(),
                0 <= k <= self.entries@.len(),
                forall|j: int| 0 <= j < k ==> self.entries@[j].identity@ != identity@,
            decreases self.entries@.len() - k,
        {
            if self.entries[k].identity == *identity {
                proof {
                    self.lemma_entry(k as int);
                }
                return Some(k);
            }
            k = k + 1;
        }
        None
    }

    /// The offsets assigned to `identity`, if it is in the schedule.
    pub fn get(&self, identity: &String) -> (r: Option<&Vec<u64>>)
        requires
            self.wf(),
        ensures
            r is Some <==> self@.contains_key(identity@),
            r matches Some(o) ==> o@ == self@[identity@],
    {
        match self.position(identity) {
            Some(k) => {
                proof {
                    self.lemma_entry(k as int);
                }
                Some(&self.entries[k].offsets)
            },
            None => None,
        }
    }
}

/// Why slots could not be resolved.
pub enum ResolveError {
    /// The identity has no entry in the leader schedule.
    ValidatorNotFound,
}

/// The slots owed to a validator this epoch.
pub struct ResolvedSlots {
    /// How many slots the schedule assigns to the validator in the whole epoch.
    pub owed: usize,
    /// The absolute slots among them that have been reached, in schedule
    /// order, each once.
    pub slots: Vec<u64>,
}

/// The absolute slots `first + offset` of `offsets`, in order, keeping those
/// not after `current`, each at its first occurrence.
pub open spec fn produced_slots(offsets: Seq<u64>, first: u64, current: u64) -> Seq<u64>
    decreases offsets.len(),
{
    if offsets.len() == 0 {
        Seq::empty()
    } else {
        let rest = produced_slots(offsets.drop_last(), first, current);
        let slot = first + offsets.last();
        if slot <= current && !rest.contains(slot as u64) {
            rest.push(slot as u64)
        } else {
            rest
        }
    }
}

/// Each produced slot is reached and comes from one of the offsets.
pub proof fn lemma_produced_slot_origin(offsets: Seq<u64>, first: u64, current: u64)
    ensures
        forall|k: int|
            0 <= k < produced_slots(offsets, first, current).len() ==> {
                &&& #[trigger] produced_slots(offsets, first, current)[k] <= current
                &&& exists|p: int|
                    0 <= p < offsets.len() && produced_slots(offsets, first, current)[k] == first
                        + #[trigger] offsets[p]
            },
    decreases offsets.len(),
{
    if offsets.len() > 0 {
        let init = offsets.drop_last();
        lemma_produced_slot_origin(init, first, current);
        let rest = produced_slots(init, first, current);
        let r = produced_slots(offsets, first, current);
        assert forall|k: int| 0 <= k < r.len() implies #[trigger] r[k] <= current && exists|p: int|
            0 <= p < offsets.len() && r[k] == first + #[trigger] offsets[p] by {
            if k < rest.len() {
                assert(r[k] == rest[k]);
                let p = choose|p: int| 0 <= p < init.len() && rest[k] == first + #[trigger] init[p];
                assert(init[p] == offsets[p]);
            } else {
                assert(offsets[offsets.len() - 1] == offsets.last());
            }
        }
    }
}

/// Every resolved slot is at or before the current slot, no resolved slot
/// appears twice, and where the schedule lists a validator's offsets in
/// ascending order, the resolved slots are ascending too.
pub proof fn lemma_resolved_slots_reached_distinct_ordered(offsets: Seq<u64>, first: u64, current: u64)
    ensures
        forall|k: int|
            0 <= k < produced_slots(offsets, first, current).len()
                ==> #[trigger] produced_slots(offsets, first, current)[k] <= current,
        produced_slots(offsets, first, current).no_duplicates(),
        (forall|i: int, j: int| 0 <= i < j < offsets.len() ==> offsets[i] < offsets[j]) ==> (forall|
            i: int,
            j: int,
        |
            0 <= i < j < produced_slots(offsets, first, current).len() ==> produced_slots(
                offsets,
                first,
                current,
            )[i] < produced_slots(offsets, first, current)[j]),
    decreases offsets.len(),
{
    lemma_produced_slot_origin(offsets, first, current);
    if offsets.len() > 0 {
        let init = offsets.drop_last();
        lemma_resolved_slots_reached_distinct_ordered(init, first, current);
        lemma_produced_slot_origin(init, first, current);
        let rest = produced_slots(init, first, current);
        let r = produced_slots(offsets, first, current);
        let n = offsets.len() - 1;
        assert(offsets[n] == offsets.last());
        if r.len() > rest.len() {
            assert(!rest.contains(r[rest.len() as int]));
            assert forall|i: int, j: int| 0 <= i < r.len() && 0 <= j < r.len() && i != j implies r[i]
                != r[j] by {
                if i < rest.len() && j < rest.len() {
                    assert(r[i] == rest[i] && r[j] == rest[j]);
                } else if i < rest.len() {
                    assert(r[i] == rest[i]);
                } else {
                    assert(r[j] == rest[j]);
                }
            }
        } else {
            assert(r == rest);
        }
        if forall|i: int, j: int| 0 <= i < j < offsets.len() ==> offsets[i] < offsets[j] {
            assert forall|k: int| 0 <= k < rest.len() implies rest[k] < first + offsets[n] by {
                let p = choose|p: int| 0 <= p < init.len() && rest[k] == first + #[trigger] init[p];
                assert(init[p] == offsets[p]);
            }
            assert forall|i: int, j: int| 0 <= i < j < r.len() implies r[i] < r[j] by {
                if j < rest.len() {
                    assert(r[i] == rest[i] && r[j] == rest[j]);
                }
            }
        }
    }
}

/// Whether `slots` holds `slot`.
fn holds_slot(slots: &Vec<u64>, slot: u64) -> (r: bool)
    ensures
        r == slots@.contains(slot),
{
    let mut i: usize = 0;
    while i < slots.len()
        invariant
            0 <= i <= slots@.len(),
            forall|j: int| 0 <= j < i ==> slots@[j] != slot,
        decreases slots@.len() - i,
    {
        if slots[i] == slot {
            assert(slots@[i as int] == slot);
            return true;
        }
        i = i + 1;
    }
    false
}

/// The absolute slots of `offsets` that have been reached by `current`.
fn reached_slots(offsets: &Vec<u64>, first: u64, current: u64) -> (r: Vec<u64>)
    ensures
        r@ == produced_slots(offsets@, first, current),
{
    let mut r: Vec<u64> = Vec::new();
    let mut i: usize = 0;
    while i < offsets.len()
        invariant
            0 <= i <= offsets@.len(),
            r@ == produced_slots(offsets@.subrange(0, i as int), first, current),
        decreases offsets@.len() - i,
    {
        let offset = offsets[i];
        if first <= current && offset <= current - first {
            let slot = first + offset;
            if !holds_slot(&r, slot) {
                r.push(slot);
            }
        }
        assert(offsets@.subrange(0, i + 1).drop_last() =~= offsets@.subrange(0, i as int));
        i = i + 1;
    }
    assert(offsets@.subrange(0, i as int) =~= offsets@);
    r
}

/// The slots that `identity` leads this epoch, as absolute slots from
/// `first_slot`, keeping those not after `current_slot`; together with how
/// many slots the schedule owes it in the whole epoch.
pub fn resolve_slots(
    schedule: &LeaderSchedule,
    identity: &String,
    first_slot: u64,
    current_slot: u64,
) -> (r: Result<ResolvedSlots, ResolveError>)
    requires
        schedule.wf(),
    ensures
        r is Err <==> !schedule@.contains_key(identity@),
        r matches Ok(res) ==> {
            &&& res.owed == schedule@[identity@].len()
            &&& res.slots@ == produced_slots(schedule@[identity@], first_slot, current_slot)
            &&& forall|k: int| 0 <= k < res.slots@.len() ==> #[trigger] res.slots@[k] <= current_slot
            &&& res.slots@.no_duplicates()
        },
{
    match schedule.get(identity) {
        Some(offsets) => {
            let slots = reached_slots(offsets, first_slot, current_slot);
            proof {
                lemma_resolved_slots_reached_distinct_ordered(offsets@, first_slot, current_slot);
            }
            Ok(ResolvedSlots { owed: offsets.len(), slots })
        },
        None => Err(ResolveError::ValidatorNotFound),
    }
}

} // verus!
