//! The memory rules: how memories are remembered, recalled, reinforced and
//! forgotten, and how retention fades and grows over retention cycles.
//!
//! A retention cycle runs from one recall to the next. Within a cycle the
//! first accepted reinforcement weakens every memory once by 1.0, and each
//! memory is strengthened (times 1.1) at most once. Recall ends the cycle and
//! drops memories whose retention has fallen below 1.0.
//!
//! Retentions are held in tenths, as in `memory_store`.
use crate::memory_store::{
    memories_view, stored_form, stored_memory, text_validation_error, MemoryError, MemoryModel, PersistedMemory,
    PersistedMemoryDocument, require_valid_memory_text, MAX_RETENTION_TENTHS,
};
use crate::text::{is_blank, is_blank_text, trim};
use vstd::prelude::*;
use vstd::string::*;

verus! {

broadcast use vstd::seq_lib::group_seq_properties;

/// How long a new memory is meant to last; it sets the initial retention.
#[derive(Clone, Copy, Debug, PartialEq, Eq, Structural)]
pub enum RetentionTier {
    Short,
    Medium,
    Long,
}

impl RetentionTier {
    /// The initial retention of the tier, in tenths: 5.0, 25.0 and 100.0.
    pub open spec fn retention_spec(self) -> u32 {
        match self {
            RetentionTier::Short => 50,
            RetentionTier::Medium => 250,
            RetentionTier::Long => 1000,
        }
    }

    /// The initial retention of the tier, in tenths.
    pub fn initial_retention_tenths(self) -> (r: u32)
        ensures
            r == self.retention_spec(),
    {
        match self {
            RetentionTier::Short => 50,
            RetentionTier::Medium => 250,
            RetentionTier::Long => 1000,
        }
    }
}

/// A memory as recall hands it out: its id and its text, not its retention.
#[derive(Debug, Clone, PartialEq, Eq)]
pub struct RecallMemory {
    pub id: String,
    pub text: String,
}

impl View for RecallMemory {
    type V = (Seq<char>, Seq<char>);

    open spec fn view(&self) -> (Seq<char>, Seq<char>) {
        (self.id@, self.text@)
    }
}

/// The answer to a change request: `None` when it was carried out, else why not.
#[derive(Debug, Clone, PartialEq, Eq)]
pub struct MemoryChangeResult {
    pub rejection: Option<String>,
}

impl MemoryChangeResult {
    /// The rejection message, if any, as plain characters.
    pub open spec fn rejection_view(self) -> Option<Seq<char>> {
        match self.rejection {
            Some(m) => Some(m@),
            None => None,
        }
    }

    /// A change that was carried out.
    pub fn success() -> (r: Self)
        ensures
            r.rejection is None,
    {
        MemoryChangeResult { rejection: None }
    }

    /// A change that was refused with the given message.
    pub fn reject(rejection: String) -> (r: Self)
        ensures
            r.rejection_view() == Some(rejection@),
    {
        MemoryChangeResult { rejection: Some(rejection) }
    }

    /// Whether the change was carried out.
    pub fn succeeded(&self) -> (r: bool)
        ensures
            r == self.rejection is None,
    {
        self.rejection.is_none()
    }
}

/// What has happened in the current retention cycle: whether the memories were
/// weakened already, and which memory ids were reinforced.
#[derive(Debug)]
pub struct RetentionCycle {
    decayed: bool,
    reinforced: Vec<String>,
}

/// The state of a retention cycle, as plain values.
pub struct CycleModel {
    pub decayed: bool,
    pub reinforced: Set<Seq<char>>,
}

impl View for RetentionCycle {
    type V = CycleModel;

    closed spec fn view(&self) -> CycleModel {
        CycleModel {
            decayed: self.decayed,
            reinforced: Set::new(
                |id: Seq<char>| exists|i: int| 0 <= i < self.reinforced@.len() && #[trigger] self.reinforced@[i]@ == id,
            ),
        }
    }
}

impl RetentionCycle {
    /// A fresh cycle: nothing weakened, nothing reinforced.
    pub fn new() -> (c: Self)
        ensures
            !c@.decayed,
            c@.reinforced == Set::<Seq<char>>::empty(),
    {
        let c = RetentionCycle { decayed: false, reinforced: Vec::new() };
        assert(c@.reinforced =~= Set::<Seq<char>>::empty());
        c
    }

    /// Starts a new cycle.
    pub fn reset(&mut self)
        ensures
            !final(self)@.decayed,
            final(self)@.reinforced == Set::<Seq<char>>::empty(),
    {
        self.decayed = false;
        self.reinforced.clear();
        assert(self@.reinforced =~= Set::<Seq<char>>::empty());
    }

    /// Whether the memories may still be weakened in this cycle; from now on
    /// they may not.
    pub fn can_decay(&mut self) -> (r: bool)
        ensures
            r == !old(self)@.decayed,
            final(self)@.decayed,
            final(self)@.reinforced == old(self)@.reinforced,
    {
        let result = !self.decayed;
        self.decayed = true;
        result
    }

    /// Whether the memory `memory_id` may still be reinforced in this cycle;
    /// from now on it may not.
    pub fn can_reinforce(&mut self, memory_id: &str) -> (r: bool)
        ensures
            r == !old(self)@.reinforced.contains(memory_id@),
            final(self)@.decayed == old(self)@.decayed,
            final(self)@.reinforced == old(self)@.reinforced.insert(memory_id@),
    {
        let target = memory_id.to_owned();
        let n = self.reinforced.len();
        let mut i: usize = 0;
        while i < n
            invariant
                target@ == memory_id@,
                n == self.reinforced@.len(),
                i <= n,
                forall|j: int| 0 <= j < i ==> (#[trigger] self.reinforced@[j])@ != memory_id@,
            decreases n - i,
        {
            if self.reinforced[i] == target {
                assert(self.reinforced@[i as int]@ == memory_id@);
                assert(old(self)@.reinforced.insert(memory_id@) =~= old(self)@.reinforced);
                return false;
            }
            i = i + 1;
        }
        let ghost before = self.reinforced@;
        self.reinforced.push(target);
        proof {
            assert(self.reinforced@[n as int]@ == memory_id@);
            assert forall|id: Seq<char>| #[trigger] self@.reinforced.contains(id) == old(self)@.reinforced.insert(memory_id@).contains(id) by {
                if old(self)@.reinforced.contains(id) {
                    let k = choose|k: int| 0 <= k < before.len() && #[trigger] before[k]@ == id;
                    assert(self.reinforced@[k]@ == id);
                }
                if self@.reinforced.contains(id) && id != memory_id@ {
                    let k = choose|k: int|
                        0 <= k < self.reinforced@.len() && #[trigger] self.reinforced@[k]@ == id;
                    assert(k != n);
                    assert(before[k]@ == id);
                }
            }
            assert(self@.reinforced =~= old(self)@.reinforced.insert(memory_id@));
        }
        true
    }
}

/// A retention below 1.0 means that the memory has faded and is deleted.
pub open spec fn is_deletable(retention: u32) -> bool {
    retention < 10
}

/// The retention after one weakening: 1.0 less.
pub open spec fn decayed_retention(retention: u32) -> int {
    retention - 10
}

/// The retention after one reinforcement: times 1.1, rounded to one decimal
/// (halves away from zero), at most 150.0.
pub open spec fn reinforced_retention(retention: u32) -> u32 {
    let grown = (11 * retention + 5) / 10;
    if grown <= MAX_RETENTION_TENTHS {
        grown as u32
    } else {
        MAX_RETENTION_TENTHS
    }
}

/// Whether a memory with this retention has faded (retention below 1.0).
pub fn should_delete(retention_tenths: u32) -> (r: bool)
    ensures
        r == is_deletable(retention_tenths),
{
    retention_tenths < 10
}

/// The retention after one weakening, or `InvalidRetention` when it would
/// fall below zero.
pub fn decay(retention_tenths: u32) -> (r: Result<u32, MemoryError>)
    ensures
        r is Ok <==> decayed_retention(retention_tenths) >= 0,
        r matches Ok(v) ==> v == decayed_retention(retention_tenths),
        r matches Err(e) ==> e is InvalidRetention,
{
    if retention_tenths < 10 {
        Err(MemoryError::InvalidRetention)
    } else {
        Ok(retention_tenths - 10)
    }
}

/// The retention after one reinforcement.
pub fn reinforce(retention_tenths: u32) -> (r: u32)
    ensures
        r == reinforced_retention(retention_tenths),
{
    let grown: u64 = (11 * (retention_tenths as u64) + 5) / 10;
    if grown <= MAX_RETENTION_TENTHS as u64 {
        grown as u32
    } else {
        MAX_RETENTION_TENTHS
    }
}

/// The memory has not faded.
pub open spec fn is_kept(m: MemoryModel) -> bool {
    !is_deletable(m.retention)
}

/// The memories that have not faded, in their order.
pub open spec fn pruned(s: Seq<MemoryModel>) -> Seq<MemoryModel> {
    s.filter(|m: MemoryModel| is_kept(m))
}

/// Drops every memory whose retention is below 1.0, keeping the order of the
/// rest; tells whether any was dropped.
pub fn prune_deletable_memories(document: &mut PersistedMemoryDocument) -> (changed: bool)
    ensures
        final(document)@ == pruned(old(document)@),
        changed == (final(document)@.len() != old(document)@.len()),
{
    let ghost s = document@;
    let mut rest: Vec<PersistedMemory> = Vec::new();
    std::mem::swap(&mut rest, &mut document.memories);
    let start = rest.len();
    let mut kept: Vec<PersistedMemory> = Vec::new();
    let mut i: usize = 0;
    while rest.len() > 0
        invariant
            start == s.len(),
            i + rest@.len() == start,
            memories_view(rest@) == s.skip(i as int),
            memories_view(kept@) == s.take(i as int).filter(|m: MemoryModel| is_kept(m)),
        decreases rest@.len(),
    {
        let memory = rest.remove(0);
        proof {
            assert(memory@ == s[i as int]);
            assert(s.take(i + 1) =~= s.take(i as int).push(s[i as int]));
            s.take(i as int).lemma_filter_push(s[i as int], |m: MemoryModel| is_kept(m));
            assert(memories_view(rest@) =~= s.skip(i + 1));
        }
        let ghost before = kept@;
        if !should_delete(memory.retention_tenths) {
            kept.push(memory);
            assert(memories_view(kept@) =~= memories_view(before).push(memory@));
        }
        i = i + 1;
    }
    proof {
        assert(s.take(start as int) =~= s);
    }
    let end = kept.len();
    document.memories = kept;
    start != end
}

/// The ids of a list of id strings, as plain characters.
pub open spec fn ids_view(ids: Seq<String>) -> Seq<Seq<char>> {
    ids.map_values(|id: String| id@)
}

/// Some memory of `memories` has the id `id`.
pub open spec fn is_known_id(memories: Seq<MemoryModel>, id: Seq<char>) -> bool {
    exists|j: int| 0 <= j < memories.len() && (#[trigger] memories[j]).id == id
}

/// A requested id that names no memory: it is blank, or no memory has it.
pub open spec fn is_unknown_id(memories: Seq<MemoryModel>, id: Seq<char>) -> bool {
    is_blank(id) || !is_known_id(memories, id)
}

/// `i` is the first requested id that names no memory.
pub open spec fn first_unknown(ids: Seq<Seq<char>>, memories: Seq<MemoryModel>, i: int) -> bool {
    &&& 0 <= i < ids.len()
    &&& is_unknown_id(memories, ids[i])
    &&& forall|j: int| 0 <= j < i ==> !is_unknown_id(memories, #[trigger] ids[j])
}

/// Every requested id names a memory.
pub open spec fn all_ids_known(ids: Seq<Seq<char>>, memories: Seq<MemoryModel>) -> bool {
    forall|i: int| 0 <= i < ids.len() ==> !is_unknown_id(memories, #[trigger] ids[i])
}

/// Whether some memory of `memories` has the id `id`.
fn has_memory_id(memories: &[PersistedMemory], id: &String) -> (r: bool)
    ensures
        r == is_known_id(memories_view(memories@), id@),
{
    let n = memories.len();
    let mut i: usize = 0;
    while i < n
        invariant
            n == memories@.len(),
            i <= n,
            forall|j: int| 0 <= j < i ==> (#[trigger] memories@[j]).id@ != id@,
        decreases n - i,
    {
        if memories[i].id == *id {
            assert(memories_view(memories@)[i as int].id == id@);
            return true;
        }
        i = i + 1;
    }
    false
}

/// Whether `id` is among the requested ids.
fn is_requested(memory_ids: &[String], id: &String) -> (r: bool)
    ensures
        r == ids_view(memory_ids@).contains(id@),
{
    let n = memory_ids.len();
    let mut i: usize = 0;
    while i < n
        invariant
            n == memory_ids@.len(),
            i <= n,
            forall|j: int| 0 <= j < i ==> (#[trigger] memory_ids@[j])@ != id@,
        decreases n - i,
    {
        if memory_ids[i] == *id {
            assert(ids_view(memory_ids@)[i as int] == id@);
            return true;
        }
        i = i + 1;
    }
    assert forall|j: int| 0 <= j < ids_view(memory_ids@).len() implies #[trigger] ids_view(
        memory_ids@,
    )[j] != id@ by {
        assert(memory_ids@[j]@ != id@);
    }
    false
}

/// The first requested id that is blank or names no memory, if any.
pub fn get_unknown_memory_id(memory_ids: &[String], memories: &[PersistedMemory]) -> (r: Option<
    String,
>)
    ensures
        r is None <==> all_ids_known(ids_view(memory_ids@), memories_view(memories@)),
        r matches Some(id) ==> exists|i: int|
            first_unknown(ids_view(memory_ids@), memories_view(memories@), i) && id@
                == memory_ids@[i]@,
{
    let ghost ids = ids_view(memory_ids@);
    let ghost ms = memories_view(memories@);
    let n = memory_ids.len();
    let mut i: usize = 0;
    while i < n
        invariant
            n == memory_ids@.len(),
            ids == ids_view(memory_ids@),
            ms == memories_view(memories@),
            i <= n,
            forall|j: int| 0 <= j < i ==> !is_unknown_id(ms, #[trigger] ids[j]),
        decreases n - i,
    {
        let memory_id = &memory_ids[i];
        assert(ids[i as int] == memory_id@);
        if is_blank_text(memory_id.as_str()) || !has_memory_id(memories, memory_id) {
            assert(first_unknown(ids, ms, i as int));
            return Some(memory_id.clone());
        }
        i = i + 1;
    }
    None
}

/// The memory's id is not among the requested ids.
pub open spec fn not_requested(ids: Seq<Seq<char>>, m: MemoryModel) -> bool {
    !ids.contains(m.id)
}

/// The memories whose ids are not requested, in their order.
pub open spec fn forgotten(s: Seq<MemoryModel>, ids: Seq<Seq<char>>) -> Seq<MemoryModel> {
    s.filter(|m: MemoryModel| not_requested(ids, m))
}

/// Deletes every memory whose id is among the requested ids, keeping the order
/// of the rest.
pub fn forget_memories(document: &mut PersistedMemoryDocument, memory_ids: &[String])
    ensures
        final(document)@ == forgotten(old(document)@, ids_view(memory_ids@)),
{
    let ghost s = document@;
    let ghost ids = ids_view(memory_ids@);
    let mut rest: Vec<PersistedMemory> = Vec::new();
    std::mem::swap(&mut rest, &mut document.memories);
    let start = rest.len();
    let mut kept: Vec<PersistedMemory> = Vec::new();
    let mut i: usize = 0;
    while rest.len() > 0
        invariant
            start == s.len(),
            ids == ids_view(memory_ids@),
            i + rest@.len() == start,
            memories_view(rest@) == s.skip(i as int),
            memories_view(kept@) == s.take(i as int).filter(
                |m: MemoryModel| not_requested(ids, m),
            ),
        decreases rest@.len(),
    {
        let memory = rest.remove(0);
        proof {
            assert(memory@ == s[i as int]);
            assert(s.take(i + 1) =~= s.take(i as int).push(s[i as int]));
            s.take(i as int).lemma_filter_push(s[i as int], |m: MemoryModel| not_requested(ids, m));
            assert(memories_view(rest@) =~= s.skip(i + 1));
        }
        let ghost before = kept@;
        if !is_requested(memory_ids, &memory.id) {
            kept.push(memory);
            assert(memories_view(kept@) =~= memories_view(before).push(memory@));
        }
        i = i + 1;
    }
    proof {
        assert(s.take(start as int) =~= s);
    }
    document.memories = kept;
}

/// Every memory has at least the retention that one weakening takes away.
pub open spec fn can_weaken_all(s: Seq<MemoryModel>) -> bool {
    forall|i: int| 0 <= i < s.len() ==> decayed_retention(#[trigger] s[i].retention) >= 0
}

/// The memory after one weakening.
pub open spec fn weakened(m: MemoryModel) -> MemoryModel {
    MemoryModel { id: m.id, text: m.text, retention: decayed_retention(m.retention) as u32 }
}

/// Weakens every memory by 1.0, unless the memories were weakened already in
/// this cycle; either way they may not be weakened again in it. Tells whether
/// the memories were weakened. When some retention is below 1.0 the weakening
/// is refused and the document is left as it was.
pub fn apply_global_weakening_if_first_time(
    document: &mut PersistedMemoryDocument,
    cycle: &mut RetentionCycle,
) -> (r: Result<bool, MemoryError>)
    ensures
        final(cycle)@.decayed,
        final(cycle)@.reinforced == old(cycle)@.reinforced,
        old(cycle)@.decayed ==> r == Ok::<bool, MemoryError>(false)
            && final(document)@ == old(document)@,
        !old(cycle)@.decayed ==> (r is Ok <==> can_weaken_all(old(document)@)),
        !old(cycle)@.decayed && r is Ok ==> r == Ok::<bool, MemoryError>(true)
            && final(document)@ == old(document)@.map_values(|m: MemoryModel| weakened(m)),
        r matches Err(e) ==> e is InvalidRetention && final(document)@ == old(document)@,
{
    if !cycle.can_decay() {
        return Ok(false);
    }
    let ghost s = document@;
    let n = document.memories.len();
    let mut i: usize = 0;
    while i < n
        invariant
            s == document@,
            n == s.len(),
            i <= n,
            forall|j: int| 0 <= j < i ==> decayed_retention(#[trigger] s[j].retention) >= 0,
            cycle@.decayed,
            !old(cycle)@.decayed,
            s == old(document)@,
            cycle@.reinforced == old(cycle)@.reinforced,
        decreases n - i,
    {
        assert(document.memories@[i as int]@ == s[i as int]);
        if should_delete(document.memories[i].retention_tenths) {
            assert(decayed_retention(s[i as int].retention) < 0);
            return Err(MemoryError::InvalidRetention);
        }
        i = i + 1;
    }
    let mut k: usize = 0;
    while k < n
        invariant
            n == s.len(),
            n == document.memories@.len(),
            k <= n,
            can_weaken_all(s),
            cycle@.decayed,
            !old(cycle)@.decayed,
            s == old(document)@,
            cycle@.reinforced == old(cycle)@.reinforced,
            forall|j: int| 0 <= j < k ==> #[trigger] document@[j] == weakened(s[j]),
            forall|j: int| k <= j < n ==> #[trigger] document@[j] == s[j],
        decreases n - k,
    {
        assert(document@[k as int] == s[k as int]);
        assert(decayed_retention(s[k as int].retention) >= 0);
        let retention = match decay(document.memories[k].retention_tenths) {
            Ok(v) => v,
            Err(e) => return Err(e),
        };
        let ghost before = document@;
        document.memories[k].retention_tenths = retention;
        assert(document@ =~= before.update(k as int, weakened(s[k as int])));
        k = k + 1;
    }
    assert(document@ =~= s.map_values(|m: MemoryModel| weakened(m)));
    Ok(true)
}

/// No memory before `i` has the id of the memory at `i`.
pub open spec fn first_with_id(s: Seq<MemoryModel>, i: int) -> bool {
    forall|j: int| 0 <= j < i ==> (#[trigger] s[j]).id != s[i].id
}

/// The memory at `i` is reinforced: its id is requested, was not reinforced
/// yet in the cycle, and no earlier memory has the same id.
pub open spec fn is_reinforced_now(
    s: Seq<MemoryModel>,
    ids: Seq<Seq<char>>,
    done: Set<Seq<char>>,
    i: int,
) -> bool {
    &&& ids.contains(s[i].id)
    &&& !done.contains(s[i].id)
    &&& first_with_id(s, i)
}

/// The memory after one reinforcement.
pub open spec fn strengthened(m: MemoryModel) -> MemoryModel {
    MemoryModel { id: m.id, text: m.text, retention: reinforced_retention(m.retention) }
}

/// The memories after reinforcing the requested ones that were not yet
/// reinforced in the cycle (`done`).
pub open spec fn reinforce_result(
    s: Seq<MemoryModel>,
    ids: Seq<Seq<char>>,
    done: Set<Seq<char>>,
) -> Seq<MemoryModel> {
    Seq::new(
        s.len(),
        |i: int|
            if is_reinforced_now(s, ids, done, i) {
                strengthened(s[i])
            } else {
                s[i]
            },
    )
}

/// The requested ids that some memory of `s` has.
pub open spec fn requested_present_ids(s: Seq<MemoryModel>, ids: Seq<Seq<char>>) -> Set<
    Seq<char>,
> {
    Set::new(|id: Seq<char>| ids.contains(id) && is_known_id(s, id))
}

/// Some memory is reinforced.
pub open spec fn any_reinforced(s: Seq<MemoryModel>, ids: Seq<Seq<char>>, done: Set<Seq<char>>) -> bool {
    exists|i: int| 0 <= i < s.len() && is_reinforced_now(s, ids, done, i)
}

/// Reinforces each requested memory that was not reinforced yet in this cycle
/// and records it as reinforced; tells whether any retention changed.
pub fn reinforce_memories(
    document: &mut PersistedMemoryDocument,
    memory_ids: &[String],
    cycle: &mut RetentionCycle,
) -> (changed: bool)
    ensures
        final(document)@ == reinforce_result(
            old(document)@,
            ids_view(memory_ids@),
            old(cycle)@.reinforced,
        ),
        final(cycle)@.decayed == old(cycle)@.decayed,
        final(cycle)@.reinforced == old(cycle)@.reinforced.union(
            requested_present_ids(old(document)@, ids_view(memory_ids@)),
        ),
        changed == any_reinforced(old(document)@, ids_view(memory_ids@), old(cycle)@.reinforced),
{
    let ghost s = document@;
    let ghost ids = ids_view(memory_ids@);
    let ghost done = cycle@.reinforced;
    let n = document.memories.len();
    let mut changed = false;
    let mut i: usize = 0;
    while i < n
        invariant
            n == s.len(),
            n == document.memories@.len(),
            s == old(document)@,
            ids == ids_view(memory_ids@),
            done == old(cycle)@.reinforced,
            i <= n,
            cycle@.decayed == old(cycle)@.decayed,
            cycle@.reinforced == done.union(requested_present_ids(s.take(i as int), ids)),
            forall|j: int|
                0 <= j < i ==> #[trigger] document@[j] == reinforce_result(s, ids, done)[j],
            forall|j: int| i <= j < n ==> #[trigger] document@[j] == s[j],
            changed == exists|j: int| 0 <= j < i && is_reinforced_now(s, ids, done, j),
        decreases n - i,
    {
        assert(document@[i as int] == s[i as int]);
        let ghost id = s[i as int].id;
        let ghost pre_cycle = cycle@.reinforced;
        proof {
            assert(s.take(i + 1) =~= s.take(i as int).push(s[i as int]));
            if first_with_id(s, i as int) {
                assert(!is_known_id(s.take(i as int), id));
            } else {
                let j = choose|j: int| 0 <= j < i && (#[trigger] s[j]).id == id;
                assert(s.take(i as int)[j] == s[j]);
            }
        }
        if is_requested(memory_ids, &document.memories[i].id) && cycle.can_reinforce(
            document.memories[i].id.as_str(),
        ) {
            let retention = reinforce(document.memories[i].retention_tenths);
            let ghost before = document@;
            document.memories[i].retention_tenths = retention;
            assert(is_reinforced_now(s, ids, done, i as int));
            assert(document@ =~= before.update(i as int, strengthened(s[i as int])));
            changed = true;
        } else {
            assert(!is_reinforced_now(s, ids, done, i as int));
        }
        proof {
            assert(cycle@.reinforced =~= done.union(requested_present_ids(s.take(i + 1), ids))) by {
                assert forall|x: Seq<char>| #[trigger] requested_present_ids(s.take(i + 1), ids).contains(x)
                    == (requested_present_ids(s.take(i as int), ids).contains(x) || (ids.contains(x) && x == id)) by {
                    if is_known_id(s.take(i + 1), x) {
                        let j = choose|j: int| 0 <= j < i + 1 && (#[trigger] s.take(i + 1)[j]).id == x;
                        if j < i {
                            assert(s.take(i as int)[j] == s.take(i + 1)[j]);
                        }
                    }
                    if is_known_id(s.take(i as int), x) {
                        let j = choose|j: int| 0 <= j < i && (#[trigger] s.take(i as int)[j]).id == x;
                        assert(s.take(i as int)[j] == s.take(i + 1)[j]);
                    }
                    if x == id {
                        assert(s.take(i + 1)[i as int].id == id);
                    }
                }
            }
        }
        i = i + 1;
    }
    proof {
        assert(s.take(n as int) =~= s);
        assert(document@ =~= reinforce_result(s, ids, done));
    }
    changed
}

/// `m` placed into the list `sorted` (strongest first) after every memory
/// that is at least as strong as it.
pub open spec fn insert_by_retention(sorted: Seq<MemoryModel>, m: MemoryModel) -> Seq<MemoryModel>
    decreases sorted.len(),
{
    if sorted.len() == 0 {
        seq![m]
    } else if sorted[0].retention >= m.retention {
        seq![sorted[0]] + insert_by_retention(sorted.drop_first(), m)
    } else {
        seq![m] + sorted
    }
}

/// The memories ordered strongest first; memories of equal retention keep
/// their order (a stable sort by descending retention).
pub open spec fn sort_by_retention(s: Seq<MemoryModel>) -> Seq<MemoryModel>
    decreases s.len(),
{
    if s.len() == 0 {
        s
    } else {
        insert_by_retention(sort_by_retention(s.drop_last()), s.last())
    }
}

/// What recall hands out for the memories: ids and texts, strongest first.
pub open spec fn recalled(s: Seq<MemoryModel>) -> Seq<(Seq<char>, Seq<char>)> {
    sort_by_retention(s).map_values(|m: MemoryModel| (m.id, m.text))
}

/// The most memories that one recall hands out.
pub const MAX_RECALLED_MEMORIES: usize = 50;

/// The strongest memories of a recall: the first 50 of the list.
pub fn limit_recalled(memories: Vec<RecallMemory>) -> (r: Vec<RecallMemory>)
    ensures
        r@ == if memories@.len() <= MAX_RECALLED_MEMORIES {
            memories@
        } else {
            memories@.take(MAX_RECALLED_MEMORIES as int)
        },
{
    let mut selected = memories;
    selected.truncate(MAX_RECALLED_MEMORIES);
    selected
}

/// Inserting at the first position whose memory is weaker than `m`.
proof fn lemma_insert_at(sorted: Seq<MemoryModel>, m: MemoryModel, k: int)
    requires
        0 <= k <= sorted.len(),
        forall|j: int| 0 <= j < k ==> (#[trigger] sorted[j]).retention >= m.retention,
        k < sorted.len() ==> sorted[k].retention < m.retention,
    ensures
        insert_by_retention(sorted, m) == sorted.insert(k, m),
    decreases sorted.len(),
{
    if sorted.len() == 0 {
        assert(sorted.insert(k, m) =~= seq![m]);
    } else if sorted[0].retention >= m.retention {
        assert(k > 0);
        let rest = sorted.drop_first();
        assert forall|j: int| 0 <= j < k - 1 implies (#[trigger] rest[j]).retention >= m.retention by {
            assert(rest[j] == sorted[j + 1]);
        }
        lemma_insert_at(rest, m, k - 1);
        assert(seq![sorted[0]] + rest.insert(k - 1, m) =~= sorted.insert(k, m));
    } else {
        assert(k == 0);
        assert(seq![m] + sorted =~= sorted.insert(0, m));
    }
}

/// Lists the memories' ids and texts, strongest first; memories of equal
/// retention keep their stored order.
pub fn recall_memories(document: PersistedMemoryDocument) -> (r: Vec<RecallMemory>)
    ensures
        r@.map_values(|m: RecallMemory| m@) == recalled(document@),
{
    let ghost s = document@;
    let mut rest = document.memories;
    let start = rest.len();
    let mut sorted: Vec<PersistedMemory> = Vec::new();
    let mut i: usize = 0;
    while rest.len() > 0
        invariant
            start == s.len(),
            i + rest@.len() == start,
            memories_view(rest@) == s.skip(i as int),
            memories_view(sorted@) == sort_by_retention(s.take(i as int)),
        decreases rest@.len(),
    {
        let memory = rest.remove(0);
        proof {
            assert(memory@ == s[i as int]);
            assert(s.take(i + 1).drop_last() =~= s.take(i as int));
            assert(memories_view(rest@) =~= s.skip(i + 1));
        }
        let ghost sv = memories_view(sorted@);
        let mut k: usize = 0;
        while k < sorted.len() && sorted[k].retention_tenths >= memory.retention_tenths
            invariant
                sv == memories_view(sorted@),
                k <= sorted@.len(),
                forall|j: int| 0 <= j < k ==> (#[trigger] sv[j]).retention >= memory@.retention,
            decreases sorted@.len() - k,
        {
            k = k + 1;
        }
        proof {
            lemma_insert_at(sv, memory@, k as int);
        }
        let ghost mv = memory@;
        sorted.insert(k, memory);
        assert(memories_view(sorted@) =~= sv.insert(k as int, mv));
        i = i + 1;
    }
    proof {
        assert(s.take(start as int) =~= s);
    }
    let ghost sorted_view = memories_view(sorted@);
    let total = sorted.len();
    assert(sorted_view.len() == total);
    let mut recalled_memories: Vec<RecallMemory> = Vec::new();
    let mut j: usize = 0;
    while sorted.len() > 0
        invariant
            sorted_view == sort_by_retention(s),
            sorted_view.len() <= usize::MAX,
            j + sorted@.len() == sorted_view.len(),
            memories_view(sorted@) == sorted_view.skip(j as int),
            recalled_memories@.map_values(|m: RecallMemory| m@) == sorted_view.take(
                j as int,
            ).map_values(|m: MemoryModel| (m.id, m.text)),
        decreases sorted@.len(),
    {
        let memory = sorted.remove(0);
        let ghost before = recalled_memories@;
        proof {
            assert(memory@ == sorted_view[j as int]);
            assert(memories_view(sorted@) =~= sorted_view.skip(j + 1));
            assert(sorted_view.take(j + 1) =~= sorted_view.take(j as int).push(sorted_view[j as int]));
        }
        recalled_memories.push(RecallMemory { id: memory.id, text: memory.text });
        assert(recalled_memories@.map_values(|m: RecallMemory| m@) =~= before.map_values(
            |m: RecallMemory| m@,
        ).push((memory@.id, memory@.text)));
        j = j + 1;
    }
    assert(sorted_view.take(j as int) =~= sorted_view);
    recalled_memories
}

pub open spec fn missing_ids_message() -> Seq<char> {
    "At least one memory id is required."@
}

pub open spec fn unknown_memory_message(id: Seq<char>) -> Seq<char> {
    "Unknown memory '"@ + id + "'."@
}

/// The rejection of a request that names no memory id, if it names none.
pub fn memory_ids_rejection(memory_ids: &[String]) -> (r: Option<MemoryChangeResult>)
    ensures
        r is Some <==> memory_ids@.len() == 0,
        r matches Some(res) ==> res.rejection_view() == Some(missing_ids_message()),
{
    if memory_ids.len() == 0 {
        Some(MemoryChangeResult::reject(String::from_str("At least one memory id is required.")))
    } else {
        None
    }
}

/// The rejection of a request that names an unknown memory: the first
/// requested id that is blank or names no memory.
pub fn unknown_memory_rejection(memory_ids: &[String], memories: &[PersistedMemory]) -> (r: Option<
    MemoryChangeResult,
>)
    ensures
        r is None <==> all_ids_known(ids_view(memory_ids@), memories_view(memories@)),
        r matches Some(res) ==> exists|i: int|
            first_unknown(ids_view(memory_ids@), memories_view(memories@), i)
                && res.rejection_view() == Some(unknown_memory_message(memory_ids@[i]@)),
{
    match get_unknown_memory_id(memory_ids, memories) {
        Some(id) => {
            let message = String::from_str("Unknown memory '").concat(id.as_str()).concat("'.");
            Some(MemoryChangeResult::reject(message))
        },
        None => None,
    }
}

/// The rejection of a text that cannot be remembered, if it cannot.
pub fn remember_rejection(text: &str) -> (r: Option<MemoryChangeResult>)
    ensures
        r is Some <==> text_validation_error(text@) is Some,
        r matches Some(res) ==> res.rejection_view() == text_validation_error(text@),
{
    match crate::memory_store::get_memory_text_validation_error(text) {
        Some(message) => Some(MemoryChangeResult::reject(message)),
        None => None,
    }
}

/// The memory that `remember` stores.
pub open spec fn new_memory(id: Seq<char>, text: Seq<char>, retention_tier: RetentionTier) -> MemoryModel {
    MemoryModel { id, text, retention: retention_tier.retention_spec() }
}

/// Appends a new memory with the given id, the text and the tier's initial
/// retention; an invalid text is refused and the document left as it was.
pub fn remember_memory(
    document: &mut PersistedMemoryDocument,
    retention_tier: RetentionTier,
    text: &str,
    id: String,
) -> (r: Result<(), MemoryError>)
    ensures
        r is Ok <==> text_validation_error(text@) is None,
        r is Ok ==> final(document)@ == old(document)@.push(new_memory(id@, text@, retention_tier)),
        r matches Err(e) ==> final(document)@ == old(document)@ && (e matches MemoryError::InvalidText { message }
            && message@ == text_validation_error(text@)->0),
{
    let text = require_valid_memory_text(text)?;
    let memory = PersistedMemory {
        id,
        text,
        retention_tenths: retention_tier.initial_retention_tenths(),
    };
    let ghost before = document@;
    let ghost mv = memory@;
    document.memories.push(memory);
    assert(document@ =~= before.push(mv));
    Ok(())
}

/// The memories from which reinforcement starts: weakened once unless they
/// were weakened already in the cycle.
pub open spec fn reinforce_base(s: Seq<MemoryModel>, decayed: bool) -> Seq<MemoryModel> {
    if decayed {
        s
    } else {
        s.map_values(|m: MemoryModel| weakened(m))
    }
}

/// The reinforcement is refused because the first weakening of the cycle
/// would take some retention below zero.
pub open spec fn weakening_refused(s: Seq<MemoryModel>, cycle: CycleModel) -> bool {
    !cycle.decayed && !can_weaken_all(s)
}

/// Handles a reinforce request on a loaded document. A request without ids,
/// or with an id that names no memory, is rejected and changes nothing, not
/// even the cycle. Otherwise the memories are weakened if this is the first
/// weakening of the cycle, the requested ones are reinforced, and the answer
/// tells whether the document changed and must be stored.
pub fn reinforce_document(
    document: &mut PersistedMemoryDocument,
    memory_ids: &[String],
    cycle: &mut RetentionCycle,
) -> (r: Result<(MemoryChangeResult, bool), MemoryError>)
    ensures
        memory_ids@.len() == 0 ==> (r matches Ok((res, save)) && res.rejection_view() == Some(
            missing_ids_message(),
        ) && !save && final(document)@ == old(document)@ && final(cycle)@ == old(cycle)@),
        memory_ids@.len() > 0 && !all_ids_known(ids_view(memory_ids@), old(document)@) ==> (exists|i: int|
            first_unknown(ids_view(memory_ids@), old(document)@, i) && (r matches Ok((res, save))
                && res.rejection_view() == Some(unknown_memory_message(memory_ids@[i]@)) && !save))
            && final(document)@ == old(document)@ && final(cycle)@ == old(cycle)@,
        memory_ids@.len() > 0 && all_ids_known(ids_view(memory_ids@), old(document)@) ==> final(cycle)@.decayed,
        memory_ids@.len() > 0 && all_ids_known(ids_view(memory_ids@), old(document)@)
            && weakening_refused(old(document)@, old(cycle)@) ==> (r matches Err(e)
            && e is InvalidRetention) && final(document)@ == old(document)@ && final(cycle)@.reinforced == old(cycle)@.reinforced,
        memory_ids@.len() > 0 && all_ids_known(ids_view(memory_ids@), old(document)@)
            && !weakening_refused(old(document)@, old(cycle)@) ==> (r matches Ok((res, save))
            && res.rejection is None && save == (!old(cycle)@.decayed || any_reinforced(
            reinforce_base(old(document)@, old(cycle)@.decayed),
            ids_view(memory_ids@),
            old(cycle)@.reinforced,
        ))) && final(document)@ == reinforce_result(
            reinforce_base(old(document)@, old(cycle)@.decayed),
            ids_view(memory_ids@),
            old(cycle)@.reinforced,
        ) && final(cycle)@.reinforced == old(cycle)@.reinforced.union(
            requested_present_ids(old(document)@, ids_view(memory_ids@)),
        ),
{
    if let Some(rejection) = memory_ids_rejection(memory_ids) {
        return Ok((rejection, false));
    }
    if let Some(rejection) = unknown_memory_rejection(memory_ids, document.memories.as_slice()) {
        return Ok((rejection, false));
    }
    let ghost s = document@;
    let weakened_now = apply_global_weakening_if_first_time(document, cycle)?;
    proof {
        assert(document@ == reinforce_base(s, old(cycle)@.decayed));
        assert(requested_present_ids(document@, ids_view(memory_ids@)) =~= requested_present_ids(
            s,
            ids_view(memory_ids@),
        )) by {
            assert forall|x: Seq<char>| is_known_id(document@, x) == is_known_id(s, x) by {
                if is_known_id(s, x) {
                    let j = choose|j: int| 0 <= j < s.len() && (#[trigger] s[j]).id == x;
                    assert(document@[j].id == x);
                }
                if is_known_id(document@, x) {
                    let j = choose|j: int| 0 <= j < document@.len() && (#[trigger] document@[j]).id == x;
                    assert(s[j].id == x);
                }
            }
        }
    }
    let reinforced_now = reinforce_memories(document, memory_ids, cycle);
    Ok((MemoryChangeResult::success(), weakened_now || reinforced_now))
}

/// Handles a forget request on a loaded document. A request without ids, or
/// with an id that names no memory, is rejected and changes nothing;
/// otherwise every requested memory is deleted (and the document must be
/// stored).
pub fn forget_document(document: &mut PersistedMemoryDocument, memory_ids: &[String]) -> (r: MemoryChangeResult)
    ensures
        memory_ids@.len() == 0 ==> r.rejection_view() == Some(missing_ids_message())
            && final(document)@ == old(document)@,
        memory_ids@.len() > 0 && !all_ids_known(ids_view(memory_ids@), old(document)@) ==> (exists|i: int|
            first_unknown(ids_view(memory_ids@), old(document)@, i) && r.rejection_view() == Some(
                unknown_memory_message(memory_ids@[i]@),
            )) && final(document)@ == old(document)@,
        memory_ids@.len() > 0 && all_ids_known(ids_view(memory_ids@), old(document)@) ==> r.rejection is None && final(document)@ == forgotten(old(document)@, ids_view(memory_ids@)),
{
    if let Some(rejection) = memory_ids_rejection(memory_ids) {
        return rejection;
    }
    if let Some(rejection) = unknown_memory_rejection(memory_ids, document.memories.as_slice()) {
        return rejection;
    }
    forget_memories(document, memory_ids);
    MemoryChangeResult::success()
}

/// The memories are ordered strongest first.
pub open spec fn strongest_first(s: Seq<MemoryModel>) -> bool {
    forall|i: int, j: int| 0 <= i < j < s.len() ==> (#[trigger] s[i]).retention >= (#[trigger] s[j]).retention
}

/// Where `insert_by_retention` places `m`: after the leading memories that are
/// at least as strong as it.
proof fn lemma_insert_position(sorted: Seq<MemoryModel>, m: MemoryModel) -> (k: int)
    ensures
        0 <= k <= sorted.len(),
        forall|j: int| 0 <= j < k ==> (#[trigger] sorted[j]).retention >= m.retention,
        k < sorted.len() ==> sorted[k].retention < m.retention,
        insert_by_retention(sorted, m) == sorted.insert(k, m),
    decreases sorted.len(),
{
    if sorted.len() == 0 {
        assert(sorted.insert(0, m) =~= seq![m]);
        0
    } else if sorted[0].retention >= m.retention {
        let rest = sorted.drop_first();
        let k = lemma_insert_position(rest, m);
        assert forall|j: int| 0 <= j < k + 1 implies (#[trigger] sorted[j]).retention >= m.retention by {
            if j > 0 {
                assert(sorted[j] == rest[j - 1]);
            }
        }
        assert(seq![sorted[0]] + rest.insert(k, m) =~= sorted.insert(k + 1, m));
        k + 1
    } else {
        assert(seq![m] + sorted =~= sorted.insert(0, m));
        0
    }
}

/// Recall lists every memory exactly once, strongest first.
pub proof fn law_recall_strongest_first(s: Seq<MemoryModel>)
    ensures
        sort_by_retention(s).len() == s.len(),
        sort_by_retention(s).to_multiset() == s.to_multiset(),
        strongest_first(sort_by_retention(s)),
    decreases s.len(),
{
    broadcast use vstd::seq_lib::group_to_multiset_ensures;

    if s.len() > 0 {
        let prev = sort_by_retention(s.drop_last());
        law_recall_strongest_first(s.drop_last());
        let m = s.last();
        let k = lemma_insert_position(prev, m);
        let r = prev.insert(k, m);
        assert(s.drop_last().push(m) =~= s);
        assert forall|i: int, j: int| 0 <= i < j < r.len() implies (#[trigger] r[i]).retention >= (
        #[trigger] r[j]).retention by {
            if j < k {
                assert(r[i] == prev[i] && r[j] == prev[j]);
            } else if j == k {
                assert(r[i] == prev[i]);
            } else if i < k {
                assert(r[i] == prev[i] && r[j] == prev[j - 1]);
            } else if i == k {
                assert(r[j] == prev[j - 1]);
                assert(prev[k].retention < m.retention);
                if j - 1 > k {
                    assert(prev[k].retention >= prev[j - 1].retention);
                }
            } else {
                assert(r[i] == prev[i - 1] && r[j] == prev[j - 1]);
            }
        }
    }
}

/// A memory is strengthened at most once per cycle: reinforcing the same
/// request again in the same cycle changes nothing more.
pub proof fn law_reinforce_once_per_cycle(
    s: Seq<MemoryModel>,
    ids: Seq<Seq<char>>,
    done: Set<Seq<char>>,
)
    ensures
        reinforce_result(
            reinforce_result(s, ids, done),
            ids,
            done.union(requested_present_ids(s, ids)),
        ) == reinforce_result(s, ids, done),
        !any_reinforced(
            reinforce_result(s, ids, done),
            ids,
            done.union(requested_present_ids(s, ids)),
        ),
{
    let once = reinforce_result(s, ids, done);
    let after = done.union(requested_present_ids(s, ids));
    assert forall|i: int| 0 <= i < once.len() implies !is_reinforced_now(once, ids, after, i) by {
        assert(once[i].id == s[i].id);
        if ids.contains(s[i].id) {
            assert(is_known_id(s, s[i].id));
            assert(after.contains(s[i].id));
        }
    }
    assert(reinforce_result(once, ids, after) =~= once);
}

/// Pruning keeps exactly the memories with a retention of at least 1.0, in
/// their order, with their retention unchanged.
pub proof fn law_prune_keeps_live_memories(s: Seq<MemoryModel>)
    ensures
        forall|i: int|
            0 <= i < pruned(s).len() ==> !is_deletable((#[trigger] pruned(s)[i]).retention),
        forall|i: int| 0 <= i < s.len() && !is_deletable(s[i].retention) ==> pruned(s).contains(#[trigger] s[i]),
        forall|m: MemoryModel| pruned(s).contains(m) ==> #[trigger] s.contains(m),
        forall|i: int| 0 <= i < pruned(s).len() ==> (#[trigger] pruned(s)[i]).retention >= 10,
        forall|i: int| 0 <= i < s.len() && s[i].retention >= 10 ==> pruned(s).contains(#[trigger] s[i]),
        forall|i: int| 0 <= i < s.len() && s[i].retention < 10 ==> !pruned(s).contains(#[trigger] s[i]),
{
    broadcast use vstd::seq_lib::group_filter_ensures;

    assert forall|m: MemoryModel| pruned(s).contains(m) implies #[trigger] s.contains(m) by {
        s.lemma_filter_contains_rev(|m: MemoryModel| is_kept(m), m);
    }
    assert forall|i: int| 0 <= i < s.len() && s[i].retention < 10 implies !pruned(s).contains(
        #[trigger] s[i],
    ) by {
        if pruned(s).contains(s[i]) {
            let k = choose|k: int| 0 <= k < pruned(s).len() && pruned(s)[k] == s[i];
            assert(!is_deletable(pruned(s)[k].retention));
        }
    }
}

/// Pruning deletes a memory exactly when its retention is below 1.0, and
/// every retention from which weakening is refused is one that pruning deletes.
pub proof fn law_deletable_below_one(r: u32)
    ensures
        is_deletable(r) <==> r < 10,
        is_deletable(0),
        decayed_retention(r) < 0 ==> is_deletable(r),
        !is_deletable(r) ==> decayed_retention(r) >= 0,
{
}

/// One weakening takes away exactly 1.0 from every memory and refuses only
/// retentions below 1.0; ids and texts stay.
pub proof fn law_weakening_takes_away_one(s: Seq<MemoryModel>)
    ensures
        forall|r: u32| #[trigger] decayed_retention(r) >= 0 <==> r >= 10,
        forall|r: u32| r >= 10 ==> #[trigger] decayed_retention(r) == r - 10,
        can_weaken_all(s) <==> forall|i: int| 0 <= i < s.len() ==> (#[trigger] s[i]).retention >= 10,
        s.map_values(|m: MemoryModel| weakened(m)).len() == s.len(),
        can_weaken_all(s) ==> forall|i: int| 0 <= i < s.len() ==> {
            &&& s.map_values(|m: MemoryModel| weakened(m))[i].retention + 10 == (#[trigger] s[i]).retention
            &&& s.map_values(|m: MemoryModel| weakened(m))[i].id == s[i].id
            &&& s.map_values(|m: MemoryModel| weakened(m))[i].text == s[i].text
        },
{
    if can_weaken_all(s) {
        assert forall|i: int| 0 <= i < s.len() implies s.map_values(|m: MemoryModel| weakened(m))[i].retention + 10 == (#[trigger] s[i]).retention by {
            assert(decayed_retention(s[i].retention) >= 0);
        }
    }
    if forall|i: int| 0 <= i < s.len() ==> (#[trigger] s[i]).retention >= 10 {
        assert forall|i: int| 0 <= i < s.len() implies decayed_retention(#[trigger] s[i].retention) >= 0 by {
            assert(s[i].retention >= 10);
        }
    }
}

/// One reinforcement multiplies a retention by 1.1, rounded to one decimal
/// with halves rounded up, and caps it at 150.0.
pub proof fn law_reinforced_retention_times_one_point_one(r: u32)
    ensures
        reinforced_retention(r) <= 1500,
        11 * r + 5 >= 15000 ==> reinforced_retention(r) == 1500,
        11 * r + 5 < 15000 ==> 10 * reinforced_retention(r) <= 11 * r + 5 < 10 * reinforced_retention(r) + 10,
        11 * r + 5 < 15000 ==> reinforced_retention(r) >= r,
        r >= 5 && 11 * r + 5 < 15000 ==> reinforced_retention(r) > r,
{
}

/// What a reinforce request does to each memory: a requested memory that was
/// not reinforced yet in the cycle (and is the first with its id) is
/// strengthened, whatever else was reinforced before; every other memory is
/// left as it is; ids and texts never change; and the cycle records only ids
/// that were requested.
pub proof fn law_reinforce_strengthens_requested(
    s: Seq<MemoryModel>,
    ids: Seq<Seq<char>>,
    done: Set<Seq<char>>,
)
    ensures
        reinforce_result(s, ids, done).len() == s.len(),
        forall|i: int| 0 <= i < s.len() ==> (#[trigger] reinforce_result(s, ids, done)[i]).id == s[i].id
            && reinforce_result(s, ids, done)[i].text == s[i].text,
        forall|i: int|
            0 <= i < s.len() && ids.contains(s[i].id) && !done.contains(s[i].id) && (forall|j: int|
                0 <= j < i ==> (#[trigger] s[j]).id != s[i].id) ==> (#[trigger] reinforce_result(
                s,
                ids,
                done,
            )[i]).retention == reinforced_retention(s[i].retention),
        forall|i: int|
            0 <= i < s.len() && (!ids.contains(s[i].id) || done.contains(s[i].id)) ==> #[trigger] reinforce_result(
                s,
                ids,
                done,
            )[i] == s[i],
        forall|x: Seq<char>| #[trigger] requested_present_ids(s, ids).contains(x) ==> ids.contains(x),
        forall|i: int|
            0 <= i < s.len() && ids.contains(s[i].id) ==> requested_present_ids(s, ids).contains(
                #[trigger] s[i].id,
            ),
{
    assert forall|i: int| 0 <= i < s.len() && ids.contains(s[i].id) implies requested_present_ids(
        s,
        ids,
    ).contains(#[trigger] s[i].id) by {
        assert(is_known_id(s, s[i].id));
    }
}

/// Two reinforce requests in one cycle: the second strengthens a memory that
/// only it requests, whatever the first request reinforced.
pub proof fn law_second_request_in_cycle_strengthens(
    s: Seq<MemoryModel>,
    first: Seq<Seq<char>>,
    second: Seq<Seq<char>>,
    done: Set<Seq<char>>,
    i: int,
)
    requires
        0 <= i < s.len(),
        second.contains(s[i].id),
        !first.contains(s[i].id),
        !done.contains(s[i].id),
        forall|j: int| 0 <= j < i ==> (#[trigger] s[j]).id != s[i].id,
    ensures
        reinforce_result(s, first, done)[i] == s[i],
        reinforce_result(
            reinforce_result(s, first, done),
            second,
            done.union(requested_present_ids(s, first)),
        )[i].retention == reinforced_retention(s[i].retention),
{
    let once = reinforce_result(s, first, done);
    let after = done.union(requested_present_ids(s, first));
    law_reinforce_strengthens_requested(s, first, done);
    law_reinforce_strengthens_requested(once, second, after);
    assert(!after.contains(s[i].id));
    assert forall|j: int| 0 <= j < i implies (#[trigger] once[j]).id != once[i].id by {
        assert(once[j].id == s[j].id);
    }
}

/// Keeping some of the memories of a stored document, in their order, gives a
/// stored document.
proof fn lemma_filter_keeps_stored_form(s: Seq<MemoryModel>, p: spec_fn(MemoryModel) -> bool)
    requires
        stored_form(s),
    ensures
        stored_form(s.filter(p)),
    decreases s.len(),
{
    reveal(Seq::filter);
    if s.len() > 0 {
        let rest = s.drop_last();
        assert(stored_form(rest)) by {
            assert forall|i: int, j: int| 0 <= i < j < rest.len() implies (#[trigger] rest[i]).id != (
            #[trigger] rest[j]).id by {
                assert(rest[i] == s[i] && rest[j] == s[j]);
            }
        }
        lemma_filter_keeps_stored_form(rest, p);
        if p(s.last()) {
            let t = rest.filter(p);
            let u = t.push(s.last());
            assert(stored_memory(s[s.len() - 1]));
            assert forall|i: int, j: int| 0 <= i < j < u.len() implies (#[trigger] u[i]).id != (
            #[trigger] u[j]).id by {
                if j == u.len() - 1 {
                    assert(t.contains(u[i]));
                    rest.lemma_filter_contains_rev(p, u[i]);
                    let k = choose|k: int| 0 <= k < rest.len() && rest[k] == u[i];
                    assert(s[k] == u[i]);
                }
            }
            assert forall|i: int| 0 <= i < u.len() implies stored_memory(#[trigger] u[i]) by {
                if i < u.len() - 1 {
                    assert(u[i] == t[i]);
                }
            }
        }
    }
}

/// Pruning keeps a document in stored form.
pub proof fn law_prune_keeps_stored_form(s: Seq<MemoryModel>)
    requires
        stored_form(s),
    ensures
        stored_form(pruned(s)),
{
    lemma_filter_keeps_stored_form(s, |m: MemoryModel| is_kept(m));
}

/// Forgetting keeps a document in stored form.
pub proof fn law_forget_keeps_stored_form(s: Seq<MemoryModel>, ids: Seq<Seq<char>>)
    requires
        stored_form(s),
    ensures
        stored_form(forgotten(s, ids)),
{
    lemma_filter_keeps_stored_form(s, |m: MemoryModel| not_requested(ids, m));
}

/// Weakening keeps a document in stored form.
pub proof fn law_weakening_keeps_stored_form(s: Seq<MemoryModel>)
    requires
        stored_form(s),
        can_weaken_all(s),
    ensures
        stored_form(s.map_values(|m: MemoryModel| weakened(m))),
{
    let t = s.map_values(|m: MemoryModel| weakened(m));
    assert forall|i: int| 0 <= i < t.len() implies stored_memory(#[trigger] t[i]) by {
        assert(stored_memory(s[i]));
    }
    assert forall|i: int, j: int| 0 <= i < j < t.len() implies (#[trigger] t[i]).id != (
    #[trigger] t[j]).id by {
        assert(s[i].id != s[j].id);
    }
}

/// Reinforcing keeps a document in stored form; no retention exceeds 150.0.
pub proof fn law_reinforce_keeps_stored_form(
    s: Seq<MemoryModel>,
    ids: Seq<Seq<char>>,
    done: Set<Seq<char>>,
)
    requires
        stored_form(s),
    ensures
        stored_form(reinforce_result(s, ids, done)),
{
    let t = reinforce_result(s, ids, done);
    assert forall|i: int| 0 <= i < t.len() implies stored_memory(#[trigger] t[i]) by {
        assert(stored_memory(s[i]));
    }
    assert forall|i: int, j: int| 0 <= i < j < t.len() implies (#[trigger] t[i]).id != (
    #[trigger] t[j]).id by {
        assert(s[i].id != s[j].id);
    }
}

/// Remembering a valid text under a fresh, trimmed, non-blank id keeps a
/// document in stored form.
pub proof fn law_remember_keeps_stored_form(
    s: Seq<MemoryModel>,
    id: Seq<char>,
    text: Seq<char>,
    retention_tier: RetentionTier,
)
    requires
        stored_form(s),
        !is_blank(id),
        trim(id) == id,
        !is_known_id(s, id),
        text_validation_error(text) is None,
    ensures
        stored_form(s.push(new_memory(id, text, retention_tier))),
{
    let t = s.push(new_memory(id, text, retention_tier));
    assert forall|i: int| 0 <= i < t.len() implies stored_memory(#[trigger] t[i]) by {
        if i < s.len() {
            assert(t[i] == s[i]);
        }
    }
    assert forall|i: int, j: int| 0 <= i < j < t.len() implies (#[trigger] t[i]).id != (
    #[trigger] t[j]).id by {
        assert(t[i] == s[i]);
        if j == s.len() {
            assert(s[i].id != id);
        } else {
            assert(t[j] == s[j]);
        }
    }
}

/// What is remembered is recalled: a new memory appears, by id and text, in
/// the next recall (its retention is at least 5.0, so pruning keeps it).
pub proof fn law_remembered_memory_is_recalled(
    s: Seq<MemoryModel>,
    id: Seq<char>,
    text: Seq<char>,
    retention_tier: RetentionTier,
)
    ensures
        recalled(pruned(s.push(new_memory(id, text, retention_tier)))).contains((id, text)),
{
    broadcast use vstd::seq_lib::group_to_multiset_ensures;

    let m = new_memory(id, text, retention_tier);
    s.lemma_filter_push(m, |m: MemoryModel| is_kept(m));
    let t = pruned(s.push(m));
    assert(t.last() == m);
    assert(t.contains(m));
    law_recall_strongest_first(t);
    let sorted = sort_by_retention(t);
    assert(t.to_multiset().count(m) > 0);
    assert(sorted.to_multiset().count(m) > 0);
    assert(sorted.contains(m));
    let k = choose|k: int| 0 <= k < sorted.len() && sorted[k] == m;
    assert(recalled(t)[k] == (id, text));
}

/// Forgetting deletes exactly the requested memories: none of them remains,
/// and every other memory is kept.
pub proof fn law_forget_deletes_requested(s: Seq<MemoryModel>, ids: Seq<Seq<char>>)
    ensures
        forall|i: int|
            0 <= i < forgotten(s, ids).len() ==> !ids.contains((#[trigger] forgotten(s, ids)[i]).id),
        forall|i: int| 0 <= i < s.len() && !ids.contains(s[i].id) ==> forgotten(s, ids).contains(
            #[trigger] s[i],
        ),
        forall|m: MemoryModel| forgotten(s, ids).contains(m) ==> #[trigger] s.contains(m),
{
    broadcast use vstd::seq_lib::group_filter_ensures;

    assert forall|m: MemoryModel| forgotten(s, ids).contains(m) implies #[trigger] s.contains(m) by {
        s.lemma_filter_contains_rev(|m: MemoryModel| not_requested(ids, m), m);
    }
}

} // verus!
