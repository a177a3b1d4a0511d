//! The memory ladder: what the server gives up as its memory grows.

use vstd::prelude::*;

use crate::workspace::{Workspace, WorkspaceView};

verus! {

/// How the server's memory stands to its budget.
#[derive(Debug, Clone, Copy, PartialEq, Eq, Structural)]
pub enum MemoryPressure {
    Normal,
    /// Above the soft cap: caches are shed.
    Soft,
    /// Above the hard cap: new analyses are refused.
    Hard,
}

/// Bytes per megabyte.
pub const MEGABYTE: u64 = 1048576;

/// How much memory the server may take.
#[derive(Debug, Clone, Copy, PartialEq, Eq, Structural)]
pub struct MemoryBudget {
    pub soft_cap_bytes: u64,
    pub hard_cap_bytes: u64,
}

/// A number of megabytes in bytes, as far as it can be counted.
pub open spec fn megabytes(n: u64) -> u64 {
    if n * MEGABYTE > u64::MAX {
        u64::MAX
    } else {
        (n * MEGABYTE) as u64
    }
}

fn in_bytes(n: u64) -> (r: u64)
    ensures
        r == megabytes(n),
{
    match n.checked_mul(MEGABYTE) {
        Some(bytes) => bytes,
        None => u64::MAX,
    }
}

/// The level that a memory reading stands for.
pub open spec fn pressure_at(rss: u64, budget: MemoryBudget) -> MemoryPressure {
    if rss > budget.hard_cap_bytes {
        MemoryPressure::Hard
    } else if rss > budget.soft_cap_bytes {
        MemoryPressure::Soft
    } else {
        MemoryPressure::Normal
    }
}

impl MemoryBudget {
    /// A budget in megabytes.
    pub fn from_caps_mb(soft: u64, hard: u64) -> (r: MemoryBudget)
        ensures
            r == (MemoryBudget {
                soft_cap_bytes: megabytes(soft),
                hard_cap_bytes: megabytes(hard),
            }),
    {
        MemoryBudget { soft_cap_bytes: in_bytes(soft), hard_cap_bytes: in_bytes(hard) }
    }

    /// The soft cap in whole megabytes.
    pub fn soft_cap_mb(&self) -> (r: u64)
        ensures
            r == self.soft_cap_bytes / MEGABYTE,
    {
        self.soft_cap_bytes / MEGABYTE
    }

    /// The hard cap in whole megabytes.
    pub fn hard_cap_mb(&self) -> (r: u64)
        ensures
            r == self.hard_cap_bytes / MEGABYTE,
    {
        self.hard_cap_bytes / MEGABYTE
    }

    /// The level that a memory reading stands for.
    pub fn pressure(&self, rss: u64) -> (r: MemoryPressure)
        ensures
            r == pressure_at(rss, *self),
    {
        if rss > self.hard_cap_bytes {
            MemoryPressure::Hard
        } else if rss > self.soft_cap_bytes {
            MemoryPressure::Soft
        } else {
            MemoryPressure::Normal
        }
    }
}

/// What an operator is told right after the start, where the index alone is at a cap or over it.
/// What the ladder can shed does not help there.
#[derive(Debug, Clone, Copy, PartialEq, Eq, Structural)]
pub enum ColdIndexWarning {
    OverHardCap { rss_mb: u64, hard_cap_mb: u64 },
    OverSoftCap { rss_mb: u64, soft_cap_mb: u64 },
}

/// What an operator is told of an index, where it alone is at a cap or over it.
pub open spec fn cold_index_warning(rss: u64, budget: MemoryBudget) -> Option<ColdIndexWarning> {
    if rss >= budget.hard_cap_bytes {
        Some(
            ColdIndexWarning::OverHardCap {
                rss_mb: rss / MEGABYTE,
                hard_cap_mb: budget.hard_cap_bytes / MEGABYTE,
            },
        )
    } else if rss >= budget.soft_cap_bytes {
        Some(
            ColdIndexWarning::OverSoftCap {
                rss_mb: rss / MEGABYTE,
                soft_cap_mb: budget.soft_cap_bytes / MEGABYTE,
            },
        )
    } else {
        None
    }
}

/// Whether the index alone is at a cap or over it. The ladder itself moves only over a cap.
pub fn warn_if_cold_index_exceeds_budget(rss: u64, budget: &MemoryBudget) -> (r: Option<
    ColdIndexWarning,
>)
    ensures
        r == cold_index_warning(rss, *budget),
{
    let rss_mb: u64 = rss / MEGABYTE;
    if rss >= budget.hard_cap_bytes {
        Some(ColdIndexWarning::OverHardCap { rss_mb, hard_cap_mb: budget.hard_cap_mb() })
    } else if rss >= budget.soft_cap_bytes {
        Some(ColdIndexWarning::OverSoftCap { rss_mb, soft_cap_mb: budget.soft_cap_mb() })
    } else {
        None
    }
}

/// A step on the ladder.
#[derive(Debug, Clone, Copy, PartialEq, Eq, Structural)]
pub struct PressureChange {
    pub from: MemoryPressure,
    pub to: MemoryPressure,
    /// How many cache entries were dropped.
    pub evicted: usize,
}

/// Whether a step drops half of the caches: one up does, but not a second time from soft to hard.
pub open spec fn sheds(from: MemoryPressure, to: MemoryPressure) -> bool {
    from != to && (to == MemoryPressure::Soft || (to == MemoryPressure::Hard && from
        != MemoryPressure::Soft))
}

/// The workspace after the less recently used half of its caches was dropped.
pub open spec fn halved(ws: WorkspaceView) -> WorkspaceView {
    WorkspaceView {
        parses: ws.parses.take(ws.parses.len() - ws.parses.len() / 2),
        analyses: ws.analyses.take(ws.analyses.len() - ws.analyses.len() / 2),
        ..ws
    }
}

/// React to a memory reading. A level that is held asks for nothing; a change is reported, and a
/// step up drops the less recently used half of the caches.
pub fn react_to_memory_pressure(
    level: &mut MemoryPressure,
    ws: &mut Workspace,
    rss: u64,
    budget: &MemoryBudget,
) -> (r: Option<PressureChange>)
    requires
        old(ws).well_formed(),
    ensures
        final(ws).well_formed(),
        *final(level) == pressure_at(rss, *budget),
        r is Some <==> *old(level) != pressure_at(rss, *budget),
        r matches Some(change) ==> {
            &&& change.from == *old(level)
            &&& change.to == pressure_at(rss, *budget)
            &&& change.evicted == (if sheds(change.from, change.to) {
                old(ws)@.parses.len() / 2 + old(ws)@.analyses.len() / 2
            } else {
                0
            })
        },
        final(ws)@ == (if sheds(*old(level), pressure_at(rss, *budget)) {
            halved(old(ws)@)
        } else {
            old(ws)@
        }),
{
    let to: MemoryPressure = budget.pressure(rss);
    let from: MemoryPressure = *level;
    if to == from {
        return None;
    }
    *level = to;
    let shed: bool = to == MemoryPressure::Soft || (to == MemoryPressure::Hard && from
        != MemoryPressure::Soft);
    let evicted: usize = if shed {
        ws.evict_half()
    } else {
        0
    };
    Some(PressureChange { from, to, evicted })
}

// ---------------------------------------------------------------------------
// Laws.
// ---------------------------------------------------------------------------

/// A climb to the hard cap sheds once, whether it goes over the soft cap or not.
pub proof fn lemma_climb_sheds_once(from: MemoryPressure)
    ensures
        sheds(MemoryPressure::Normal, MemoryPressure::Hard),
        sheds(MemoryPressure::Normal, MemoryPressure::Soft),
        !sheds(MemoryPressure::Soft, MemoryPressure::Hard),
        !sheds(from, MemoryPressure::Normal),
        !sheds(from, from),
{
}

/// More memory never means a lower level, and a higher level needs more memory.
pub proof fn lemma_pressure_is_monotone(a: u64, b: u64, budget: MemoryBudget)
    requires
        a <= b,
    ensures
        pressure_at(a, budget) == MemoryPressure::Hard ==> pressure_at(b, budget)
            == MemoryPressure::Hard,
        pressure_at(b, budget) == MemoryPressure::Normal ==> pressure_at(a, budget)
            == MemoryPressure::Normal,
{
}

/// The hard level is above the hard cap, the soft level above the soft cap and not above the hard
/// one, and at a cap the ladder has not moved yet.
pub proof fn lemma_levels(rss: u64, budget: MemoryBudget)
    ensures
        pressure_at(rss, budget) is Hard <==> rss > budget.hard_cap_bytes,
        pressure_at(rss, budget) is Soft <==> budget.soft_cap_bytes < rss <= budget.hard_cap_bytes,
        pressure_at(rss, budget) is Normal <==> rss <= budget.soft_cap_bytes && rss
            <= budget.hard_cap_bytes,
        pressure_at(budget.hard_cap_bytes, budget) !is Hard,
{
}

/// A cap in megabytes is that many times 1048576 bytes, as far as that can be counted.
pub proof fn lemma_cap_in_bytes(n: u64)
    ensures
        n * 1048576 <= u64::MAX ==> megabytes(n) == n * 1048576,
        n * 1048576 > u64::MAX ==> megabytes(n) == u64::MAX,
{
}

/// Shedding keeps the more recently used half of each cache, in its order, and nothing else of the
/// workspace changes.
pub proof fn lemma_what_shedding_keeps(ws: WorkspaceView)
    ensures
        ({
            let after = halved(ws);
            &&& 2 * after.parses.len() - ws.parses.len() == ws.parses.len() % 2
            &&& 2 * after.analyses.len() - ws.analyses.len() == ws.analyses.len() % 2
            &&& forall|i: int|
                0 <= i < after.parses.len() ==> #[trigger] after.parses[i] == ws.parses[i]
            &&& forall|i: int|
                0 <= i < after.analyses.len() ==> #[trigger] after.analyses[i] == ws.analyses[i]
            &&& after.files == ws.files && after.applied == ws.applied && after.native == ws.native
                && after.generation == ws.generation && after.capacity == ws.capacity
        }),
{
}

/// An operator is warned of an index from the soft cap on, of the hard cap where it is reached, and
/// told both sizes in whole megabytes.
pub proof fn lemma_when_an_operator_is_warned(rss: u64, budget: MemoryBudget)
    ensures
        ({
            let warning = cold_index_warning(rss, budget);
            &&& warning is None <==> rss < budget.soft_cap_bytes && rss < budget.hard_cap_bytes
            &&& rss >= budget.hard_cap_bytes <==> warning is Some && warning->0 is OverHardCap
            &&& warning matches Some(
                ColdIndexWarning::OverHardCap { rss_mb, hard_cap_mb },
            ) ==> rss_mb == rss / 1048576 && hard_cap_mb == budget.hard_cap_bytes / 1048576
            &&& warning matches Some(
                ColdIndexWarning::OverSoftCap { rss_mb, soft_cap_mb },
            ) ==> rss_mb == rss / 1048576 && soft_cap_mb == budget.soft_cap_bytes / 1048576
        }),
{
}

} // verus!
