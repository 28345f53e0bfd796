//! Synchronization flags.
//!
//! Every sync allocates one flag in a [`FlagTable`]; all alternatives of a
//! choice share it. A flag moves from `Waiting` to `Synched` exactly when the
//! operation it guards commits, and `Claimed` marks a matcher that is in the
//! middle of committing both sides of a rendezvous.
use vstd::prelude::*;
use crate::state::OpState;

verus! {

/// A handle on one flag of a [`FlagTable`].
#[derive(Debug, Clone, Copy, PartialEq, Eq, Structural)]
pub struct Flag {
    pub id: usize,
}

/// The states of all flags, indexed by flag id.
pub struct FlagTable {
    states: Vec<OpState>,
}

impl View for FlagTable {
    type V = Seq<OpState>;

    closed spec fn view(&self) -> Seq<OpState> {
        self.states@
    }
}

impl FlagTable {
    /// A table with no flags.
    pub fn new() -> (t: FlagTable)
        ensures
            t@ == Seq::<OpState>::empty(),
    {
        FlagTable { states: Vec::new() }
    }

    /// The number of flags allocated so far.
    pub fn len(&self) -> (n: usize)
        ensures
            n == self@.len(),
    {
        self.states.len()
    }

    /// Whether `f` names a flag of this table.
    pub open spec fn holds(&self, f: Flag) -> bool {
        f.id < self@.len()
    }
}

/// Flags that were `Synched` stay `Synched`, and no flag disappears.
pub open spec fn keeps_synched(before: Seq<OpState>, after: Seq<OpState>) -> bool {
    &&& before.len() <= after.len()
    &&& forall|i: int| 0 <= i < before.len() && before[i] == OpState::Synched ==> after[i]
        == OpState::Synched
}

/// The table after a compare-and-swap of flag `id` from `expected` to `desired`.
pub open spec fn cas_result(
    flags: Seq<OpState>,
    id: usize,
    expected: OpState,
    desired: OpState,
) -> Seq<OpState> {
    if flags[id as int] == expected {
        flags.update(id as int, desired)
    } else {
        flags
    }
}

/// Allocates a fresh flag in the `Waiting` state.
pub fn new_flag(table: &mut FlagTable) -> (f: Flag)
    requires
        old(table)@.len() < usize::MAX,
    ensures
        f.id == old(table)@.len(),
        final(table)@ == old(table)@.push(OpState::Waiting),
        final(table).holds(f),
{
    let id = table.states.len();
    table.states.push(OpState::Waiting);
    Flag { id }
}

/// Compare-and-swap: moves the flag to `desired` when it is in `expected`,
/// and tells whether it did.
pub fn cas(table: &mut FlagTable, flag: Flag, expected: OpState, desired: OpState) -> (ok: bool)
    requires
        old(table).holds(flag),
    ensures
        ok == (old(table)@[flag.id as int] == expected),
        final(table)@ == cas_result(old(table)@, flag.id, expected, desired),
{
    let cur = table.states[flag.id];
    if cur == expected {
        table.states.set(flag.id, desired);
        true
    } else {
        false
    }
}

/// The current state of a flag.
pub fn flag_state(table: &FlagTable, flag: Flag) -> (s: OpState)
    requires
        table.holds(flag),
    ensures
        s == table@[flag.id as int],
{
    table.states[flag.id]
}

/// Overwrites the state of a flag.
pub fn store_flag(table: &mut FlagTable, flag: Flag, s: OpState)
    requires
        old(table).holds(flag),
    ensures
        final(table)@ == old(table)@.update(flag.id as int, s),
{
    table.states.set(flag.id, s);
}

/// Retires the flag of a sync that is over, whether it succeeded or was
/// abandoned: a flag still `Waiting` becomes `Synched`, so no peer can later
/// commit to the finished operation.
pub fn release_flag(table: &mut FlagTable, flag: Flag)
    requires
        old(table).holds(flag),
    ensures
        final(table)@ == cas_result(old(table)@, flag.id, OpState::Waiting, OpState::Synched),
        final(table)@[flag.id as int] != OpState::Waiting,
        keeps_synched(old(table)@, final(table)@),
{
    let _ = cas(table, flag, OpState::Waiting, OpState::Synched);
}

/// The slot in which a blocking operation records the flag it blocked with,
/// so that losing the choice can cancel it later.
#[derive(Debug, Clone, Copy, PartialEq, Eq, Structural)]
pub struct FlagSlot {
    pub flag: Option<Flag>,
}

/// An empty cancellation slot for an event whose cancellation retires the
/// flag it blocked with.
pub fn make_flag_cancel() -> (slot: FlagSlot)
    ensures
        slot.flag is None,
{
    FlagSlot { flag: None }
}

impl FlagSlot {
    /// Records the flag that the event has blocked with.
    pub fn record(&mut self, flag: Flag)
        ensures
            final(self).flag == Some(flag),
    {
        self.flag = Some(flag);
    }

    /// Cancels the recorded operation: its flag, if still `Waiting`, becomes
    /// `Synched`; with no flag recorded nothing changes.
    pub fn cancel(&self, table: &mut FlagTable)
        requires
            self.flag matches Some(f) ==> old(table).holds(f),
        ensures
            final(table)@ == match self.flag {
                Some(f) => cas_result(old(table)@, f.id, OpState::Waiting, OpState::Synched),
                None => old(table)@,
            },
            keeps_synched(old(table)@, final(table)@),
    {
        match self.flag {
            Some(f) => {
                let _ = cas(table, f, OpState::Waiting, OpState::Synched);
            },
            None => {},
        }
    }
}

/// A compare-and-swap that starts from `Waiting` never touches a `Synched`
/// flag: a committed operation stays committed.
pub proof fn lemma_cas_from_waiting_keeps_synched(
    flags: Seq<OpState>,
    id: usize,
    desired: OpState,
)
    requires
        id < flags.len(),
    ensures
        keeps_synched(flags, cas_result(flags, id, OpState::Waiting, desired)),
{
}

/// `keeps_synched` is a preorder: it holds of a table and itself, and of two
/// steps in a row.
pub proof fn lemma_keeps_synched_preorder(a: Seq<OpState>, b: Seq<OpState>, c: Seq<OpState>)
    ensures
        keeps_synched(a, a),
        keeps_synched(a, b) && keeps_synched(b, c) ==> keeps_synched(a, c),
{
}

/// A flag commits at most once: once it is `Synched`, whatever happens that
/// keeps `Synched` flags `Synched`, no later compare-and-swap from `Waiting`
/// succeeds on it. All alternatives of a choice share one flag, so at most
/// one of them fires.
pub proof fn lemma_commit_at_most_once(
    before: Seq<OpState>,
    after: Seq<OpState>,
    id: usize,
    desired: OpState,
)
    requires
        id < before.len(),
        before[id as int] == OpState::Synched,
        keeps_synched(before, after),
    ensures
        after[id as int] != OpState::Waiting,
        cas_result(after, id, OpState::Waiting, desired) == after,
{
}

} // verus!
