//! The discrete rules of multi-agent coordination: the error vocabulary,
//! the undirected adjacency of a static roadmap, and the FIFO order of a
//! queue grid's active tickets. Geometry and timing stay with the caller.

use vstd::prelude::*;
use crate::text::{append_decimal, append_text, decimal, text_eq};

verus! {

/// An undirected statically cleared transition between two roadmap vertices.
#[derive(Debug, Clone, Copy, PartialEq, Eq, Structural)]
pub struct CoordinationRoadmapEdge {
    pub first_node: usize,
    pub second_node: usize,
}

/// The explicit finite resource that prevented a rolling solve from reaching
/// either a plan or a bounded no-plan result.
#[derive(Debug, Clone, PartialEq, Eq)]
pub enum QueueGridUnresolvedReason {
    LowLevelSearchBoundExceeded { agent_id: String, target_index: usize, maximum_expansions: u64 },
    ConflictRepairBoundExceeded { maximum_conflict_tree_nodes: u64 },
}

/// Inputs rejected before conflict detection.
#[derive(Debug, Clone, PartialEq, Eq)]
pub enum CoordinationError {
    EmptyAgentId,
    DuplicateAgentId { agent_id: String },
    EmptySurface { agent_id: String, segment_index: usize },
    NonFiniteSegment { agent_id: String, segment_index: usize },
    NonPositiveDuration { agent_id: String, segment_index: usize },
    NegativeRadius { agent_id: String, segment_index: usize },
    InvalidClearanceEpsilon,
    EmptyRoadmapSurface { node_index: usize },
    NonFiniteRoadmapNode { node_index: usize },
    UnknownRoadmapNode { edge_index: usize },
    RoadmapSelfLoop { edge_index: usize },
    RoadmapCrossSurfaceEdge { edge_index: usize },
    InvalidRoadmapSpacing,
    InvalidRoadmapClearanceRadius,
    ZeroRoadmapNodeBound,
    EmptyRoadmapLattice,
    RoadmapNodeBoundExceeded { maximum_nodes: usize },
    UnsafeRoadmapAnchor { anchor_index: usize },
    UnknownPlanNode { role: String, node_index: usize },
    NonFinitePlanRequest,
    NegativePlanRadius,
    InvalidPlanHorizon,
    NonPositivePlanMotion,
    ZeroSearchBound,
    EmptyMultiStageTargets,
    UnknownMultiStageTargetNode { target_index: usize, node_index: usize },
    InvalidMultiStageTargetWindow { target_index: usize },
    NonContiguousMultiStageTarget { target_index: usize },
    SelfOccupiedTrajectory { agent_id: String },
    SearchBoundExceeded { maximum_expansions: u64 },
    MultiStageSearchBoundExceeded { agent_id: String, target_index: usize, maximum_expansions: u64 },
    EmptyCoordinationRequest,
    ZeroConflictTreeBound,
    ConflictRepairBoundExceeded { maximum_conflict_tree_nodes: u64 },
    OccupiedTrajectoryConflict,
    ZeroQueueGridSlots,
    QueueGridSlotCountOutOfRange,
    ZeroQueueGridCohortSize,
    InvalidQueueGridHorizon,
    InvalidQueueGridServiceAssumption,
    InvalidQueueGridActivation { ticket: u64 },
    DuplicateQueueGridTicket { ticket: u64 },
    InvalidQueueGridDepartureTime { ticket: u64 },
    DuplicateQueueGridDeparture { ticket: u64 },
    UnknownQueueGridDeparture { ticket: u64 },
    NonFifoQueueGridDeparture { ticket: u64 },
    QueueGridSlotCapacityExceeded { slot_count: u32 },
    MissingQueueGridTicketWindows { ticket: u64 },
    UnboundQueueGridSlotRank { ticket: u64, slot_rank: u32 },
}

/// The message of each error.
pub open spec fn coordination_error_text(e: CoordinationError) -> Seq<char> {
    match e {
        CoordinationError::EmptyAgentId => "trajectory agent id must not be empty"@,
        CoordinationError::DuplicateAgentId { agent_id } => "trajectory `"@ + agent_id@ + "` repeats an agent id"@,
        CoordinationError::EmptySurface { agent_id, segment_index } => "trajectory `"@ + agent_id@ + "` segment "@ + decimal(segment_index as nat) + " has an empty surface id"@,
        CoordinationError::NonFiniteSegment { agent_id, segment_index } => "trajectory `"@ + agent_id@ + "` segment "@ + decimal(segment_index as nat) + " has non-finite values"@,
        CoordinationError::NonPositiveDuration { agent_id, segment_index } => "trajectory `"@ + agent_id@ + "` segment "@ + decimal(segment_index as nat) + " has a non-positive duration"@,
        CoordinationError::NegativeRadius { agent_id, segment_index } => "trajectory `"@ + agent_id@ + "` segment "@ + decimal(segment_index as nat) + " has a negative radius"@,
        CoordinationError::InvalidClearanceEpsilon => "clearance epsilon must be finite and non-negative"@,
        CoordinationError::EmptyRoadmapSurface { node_index } => "roadmap node "@ + decimal(node_index as nat) + " has an empty surface id"@,
        CoordinationError::NonFiniteRoadmapNode { node_index } => "roadmap node "@ + decimal(node_index as nat) + " has non-finite coordinates"@,
        CoordinationError::UnknownRoadmapNode { edge_index } => "roadmap edge "@ + decimal(edge_index as nat) + " references an unknown node"@,
        CoordinationError::RoadmapSelfLoop { edge_index } => "roadmap edge "@ + decimal(edge_index as nat) + " is a self-loop"@,
        CoordinationError::RoadmapCrossSurfaceEdge { edge_index } => "roadmap edge "@ + decimal(edge_index as nat) + " crosses surfaces"@,
        CoordinationError::InvalidRoadmapSpacing => "roadmap lattice spacing must be finite and positive"@,
        CoordinationError::InvalidRoadmapClearanceRadius => "roadmap lattice clearance radius must be finite and non-negative"@,
        CoordinationError::ZeroRoadmapNodeBound => "roadmap lattice needs at least one node"@,
        CoordinationError::EmptyRoadmapLattice => "roadmap lattice has no statically clear nodes"@,
        CoordinationError::RoadmapNodeBoundExceeded { maximum_nodes } => "roadmap lattice exceeded its "@ + decimal(maximum_nodes as nat) + "-node bound"@,
        CoordinationError::UnsafeRoadmapAnchor { anchor_index } => "roadmap anchor "@ + decimal(anchor_index as nat) + " lacks static clearance"@,
        CoordinationError::UnknownPlanNode { role, node_index } => "plan request references an unknown "@ + role@ + " node "@ + decimal(node_index as nat),
        CoordinationError::NonFinitePlanRequest => "plan request has non-finite values"@,
        CoordinationError::NegativePlanRadius => "plan request has a negative radius"@,
        CoordinationError::InvalidPlanHorizon => "plan request reserve horizon precedes its earliest start"@,
        CoordinationError::NonPositivePlanMotion => "plan request requires a positive speed and timestep"@,
        CoordinationError::ZeroSearchBound => "plan request needs at least one search expansion"@,
        CoordinationError::EmptyMultiStageTargets => "multi-stage request needs at least one target"@,
        CoordinationError::UnknownMultiStageTargetNode { target_index, node_index } => "multi-stage target "@ + decimal(target_index as nat) + " references an unknown node "@ + decimal(node_index as nat),
        CoordinationError::InvalidMultiStageTargetWindow { target_index } => "multi-stage target "@ + decimal(target_index as nat) + " has an invalid time window"@,
        CoordinationError::NonContiguousMultiStageTarget { target_index } => "multi-stage target "@ + decimal(target_index as nat) + " does not begin at the prior handoff"@,
        CoordinationError::SelfOccupiedTrajectory { agent_id } => "plan request agent `"@ + agent_id@ + "` is also present in occupied trajectories"@,
        CoordinationError::SearchBoundExceeded { maximum_expansions } => "time-expanded roadmap search exceeded its "@ + decimal(maximum_expansions as nat) + "-state bound"@,
        CoordinationError::MultiStageSearchBoundExceeded { agent_id, target_index, maximum_expansions } => "multi-stage plan for `"@ + agent_id@ + "` target "@ + decimal(target_index as nat) + " exceeded its "@ + decimal(maximum_expansions as nat) + "-state bound"@,
        CoordinationError::EmptyCoordinationRequest => "coordination request must include at least one agent"@,
        CoordinationError::ZeroConflictTreeBound => "conflict-repair request needs at least one conflict-tree node"@,
        CoordinationError::ConflictRepairBoundExceeded { maximum_conflict_tree_nodes } => "conflict-repair tree exceeded its "@ + decimal(maximum_conflict_tree_nodes as nat) + "-node bound"@,
        CoordinationError::OccupiedTrajectoryConflict => "occupied trajectories already contain a timed-disc conflict"@,
        CoordinationError::ZeroQueueGridSlots => "queue-grid slot count must be positive"@,
        CoordinationError::QueueGridSlotCountOutOfRange => "queue-grid slot count exceeds the supported u32 rank range"@,
        CoordinationError::ZeroQueueGridCohortSize => "queue-grid rolling coordination needs at least one ticket per cohort"@,
        CoordinationError::InvalidQueueGridHorizon => "queue-grid timeline horizon must be finite and non-negative"@,
        CoordinationError::InvalidQueueGridServiceAssumption => "queue-grid service assumption needs a finite non-negative first departure and a finite positive headway"@,
        CoordinationError::InvalidQueueGridActivation { ticket } => "queue-grid ticket "@ + decimal(ticket as nat) + " has an invalid activation time"@,
        CoordinationError::DuplicateQueueGridTicket { ticket } => "queue-grid ticket "@ + decimal(ticket as nat) + " is activated more than once"@,
        CoordinationError::InvalidQueueGridDepartureTime { ticket } => "queue-grid departure for ticket "@ + decimal(ticket as nat) + " has an invalid time"@,
        CoordinationError::DuplicateQueueGridDeparture { ticket } => "queue-grid ticket "@ + decimal(ticket as nat) + " departs more than once"@,
        CoordinationError::UnknownQueueGridDeparture { ticket } => "queue-grid departure references unknown ticket "@ + decimal(ticket as nat),
        CoordinationError::NonFifoQueueGridDeparture { ticket } => "queue-grid departure for ticket "@ + decimal(ticket as nat) + " violates active FIFO order"@,
        CoordinationError::QueueGridSlotCapacityExceeded { slot_count } => "queue-grid active tickets exceed the "@ + decimal(slot_count as nat) + "-slot geometry"@,
        CoordinationError::MissingQueueGridTicketWindows { ticket } => "queue-grid ticket "@ + decimal(ticket as nat) + " has no active slot windows"@,
        CoordinationError::UnboundQueueGridSlotRank { ticket, slot_rank } => "queue-grid ticket "@ + decimal(ticket as nat) + " references unbound slot rank "@ + decimal(slot_rank as nat),
    }
}

impl CoordinationError {
    /// The error's message.
    pub fn to_text(&self) -> (r: String)
        ensures
            r@ == coordination_error_text(*self),
    {
        let mut out = String::new();
        match self {
            CoordinationError::EmptyAgentId => {
                append_text(&mut out, "trajectory agent id must not be empty");
            },
            CoordinationError::DuplicateAgentId { agent_id } => {
                append_text(&mut out, "trajectory `");
                append_text(&mut out, agent_id.as_str());
                append_text(&mut out, "` repeats an agent id");
            },
            CoordinationError::EmptySurface { agent_id, segment_index } => {
                append_text(&mut out, "trajectory `");
                append_text(&mut out, agent_id.as_str());
                append_text(&mut out, "` segment ");
                append_decimal(&mut out, *segment_index as u64);
                append_text(&mut out, " has an empty surface id");
            },
            CoordinationError::NonFiniteSegment { agent_id, segment_index } => {
                append_text(&mut out, "trajectory `");
                append_text(&mut out, agent_id.as_str());
                append_text(&mut out, "` segment ");
                append_decimal(&mut out, *segment_index as u64);
                append_text(&mut out, " has non-finite values");
            },
            CoordinationError::NonPositiveDuration { agent_id, segment_index } => {
                append_text(&mut out, "trajectory `");
                append_text(&mut out, agent_id.as_str());
                append_text(&mut out, "` segment ");
                append_decimal(&mut out, *segment_index as u64);
                append_text(&mut out, " has a non-positive duration");
            },
            CoordinationError::NegativeRadius { agent_id, segment_index } => {
                append_text(&mut out, "trajectory `");
                append_text(&mut out, agent_id.as_str());
                append_text(&mut out, "` segment ");
                append_decimal(&mut out, *segment_index as u64);
                append_text(&mut out, " has a negative radius");
            },
            CoordinationError::InvalidClearanceEpsilon => {
                append_text(&mut out, "clearance epsilon must be finite and non-negative");
            },
            CoordinationError::EmptyRoadmapSurface { node_index } => {
                append_text(&mut out, "roadmap node ");
                append_decimal(&mut out, *node_index as u64);
                append_text(&mut out, " has an empty surface id");
            },
            CoordinationError::NonFiniteRoadmapNode { node_index } => {
                append_text(&mut out, "roadmap node ");
                append_decimal(&mut out, *node_index as u64);
                append_text(&mut out, " has non-finite coordinates");
            },
            CoordinationError::UnknownRoadmapNode { edge_index } => {
                append_text(&mut out, "roadmap edge ");
                append_decimal(&mut out, *edge_index as u64);
                append_text(&mut out, " references an unknown node");
            },
            CoordinationError::RoadmapSelfLoop { edge_index } => {
                append_text(&mut out, "roadmap edge ");
                append_decimal(&mut out, *edge_index as u64);
                append_text(&mut out, " is a self-loop");
            },
            CoordinationError::RoadmapCrossSurfaceEdge { edge_index } => {
                append_text(&mut out, "roadmap edge ");
                append_decimal(&mut out, *edge_index as u64);
                append_text(&mut out, " crosses surfaces");
            },
            CoordinationError::InvalidRoadmapSpacing => {
                append_text(&mut out, "roadmap lattice spacing must be finite and positive");
            },
            CoordinationError::InvalidRoadmapClearanceRadius => {
                append_text(&mut out, "roadmap lattice clearance radius must be finite and non-negative");
            },
            CoordinationError::ZeroRoadmapNodeBound => {
                append_text(&mut out, "roadmap lattice needs at least one node");
            },
            CoordinationError::EmptyRoadmapLattice => {
                append_text(&mut out, "roadmap lattice has no statically clear nodes");
            },
            CoordinationError::RoadmapNodeBoundExceeded { maximum_nodes } => {
                append_text(&mut out, "roadmap lattice exceeded its ");
                append_decimal(&mut out, *maximum_nodes as u64);
                append_text(&mut out, "-node bound");
            },
            CoordinationError::UnsafeRoadmapAnchor { anchor_index } => {
                append_text(&mut out, "roadmap anchor ");
                append_decimal(&mut out, *anchor_index as u64);
                append_text(&mut out, " lacks static clearance");
            },
            CoordinationError::UnknownPlanNode { role, node_index } => {
                append_text(&mut out, "plan request references an unknown ");
                append_text(&mut out, role.as_str());
                append_text(&mut out, " node ");
                append_decimal(&mut out, *node_index as u64);
            },
            CoordinationError::NonFinitePlanRequest => {
                append_text(&mut out, "plan request has non-finite values");
            },
            CoordinationError::NegativePlanRadius => {
                append_text(&mut out, "plan request has a negative radius");
            },
            CoordinationError::InvalidPlanHorizon => {
                append_text(&mut out, "plan request reserve horizon precedes its earliest start");
            },
            CoordinationError::NonPositivePlanMotion => {
                append_text(&mut out, "plan request requires a positive speed and timestep");
            },
            CoordinationError::ZeroSearchBound => {
                append_text(&mut out, "plan request needs at least one search expansion");
            },
            CoordinationError::EmptyMultiStageTargets => {
                append_text(&mut out, "multi-stage request needs at least one target");
            },
            CoordinationError::UnknownMultiStageTargetNode { target_index, node_index } => {
                append_text(&mut out, "multi-stage target ");
                append_decimal(&mut out, *target_index as u64);
                append_text(&mut out, " references an unknown node ");
                append_decimal(&mut out, *node_index as u64);
            },
            CoordinationError::InvalidMultiStageTargetWindow { target_index } => {
                append_text(&mut out, "multi-stage target ");
                append_decimal(&mut out, *target_index as u64);
                append_text(&mut out, " has an invalid time window");
            },
            CoordinationError::NonContiguousMultiStageTarget { target_index } => {
                append_text(&mut out, "multi-stage target ");
                append_decimal(&mut out, *target_index as u64);
                append_text(&mut out, " does not begin at the prior handoff");
            },
            CoordinationError::SelfOccupiedTrajectory { agent_id } => {
                append_text(&mut out, "plan request agent `");
                append_text(&mut out, agent_id.as_str());
                append_text(&mut out, "` is also present in occupied trajectories");
            },
            CoordinationError::SearchBoundExceeded { maximum_expansions } => {
                append_text(&mut out, "time-expanded roadmap search exceeded its ");
                append_decimal(&mut out, *maximum_expansions as u64);
                append_text(&mut out, "-state bound");
            },
            CoordinationError::MultiStageSearchBoundExceeded { agent_id, target_index, maximum_expansions } => {
                append_text(&mut out, "multi-stage plan for `");
                append_text(&mut out, agent_id.as_str());
                append_text(&mut out, "` target ");
                append_decimal(&mut out, *target_index as u64);
                append_text(&mut out, " exceeded its ");
                append_decimal(&mut out, *maximum_expansions as u64);
                append_text(&mut out, "-state bound");
            },
            CoordinationError::EmptyCoordinationRequest => {
                append_text(&mut out, "coordination request must include at least one agent");
            },
            CoordinationError::ZeroConflictTreeBound => {
                append_text(&mut out, "conflict-repair request needs at least one conflict-tree node");
            },
            CoordinationError::ConflictRepairBoundExceeded { maximum_conflict_tree_nodes } => {
                append_text(&mut out, "conflict-repair tree exceeded its ");
                append_decimal(&mut out, *maximum_conflict_tree_nodes as u64);
                append_text(&mut out, "-node bound");
            },
            CoordinationError::OccupiedTrajectoryConflict => {
                append_text(&mut out, "occupied trajectories already contain a timed-disc conflict");
            },
            CoordinationError::ZeroQueueGridSlots => {
                append_text(&mut out, "queue-grid slot count must be positive");
            },
            CoordinationError::QueueGridSlotCountOutOfRange => {
                append_text(&mut out, "queue-grid slot count exceeds the supported u32 rank range");
            },
            CoordinationError::ZeroQueueGridCohortSize => {
                append_text(&mut out, "queue-grid rolling coordination needs at least one ticket per cohort");
            },
            CoordinationError::InvalidQueueGridHorizon => {
                append_text(&mut out, "queue-grid timeline horizon must be finite and non-negative");
            },
            CoordinationError::InvalidQueueGridServiceAssumption => {
                append_text(&mut out, "queue-grid service assumption needs a finite non-negative first departure and a finite positive headway");
            },
            CoordinationError::InvalidQueueGridActivation { ticket } => {
                append_text(&mut out, "queue-grid ticket ");
                append_decimal(&mut out, *ticket as u64);
                append_text(&mut out, " has an invalid activation time");
            },
            CoordinationError::DuplicateQueueGridTicket { ticket } => {
                append_text(&mut out, "queue-grid ticket ");
                append_decimal(&mut out, *ticket as u64);
                append_text(&mut out, " is activated more than once");
            },
            CoordinationError::InvalidQueueGridDepartureTime { ticket } => {
                append_text(&mut out, "queue-grid departure for ticket ");
                append_decimal(&mut out, *ticket as u64);
                append_text(&mut out, " has an invalid time");
            },
            CoordinationError::DuplicateQueueGridDeparture { ticket } => {
                append_text(&mut out, "queue-grid ticket ");
                append_decimal(&mut out, *ticket as u64);
                append_text(&mut out, " departs more than once");
            },
            CoordinationError::UnknownQueueGridDeparture { ticket } => {
                append_text(&mut out, "queue-grid departure references unknown ticket ");
                append_decimal(&mut out, *ticket as u64);
            },
            CoordinationError::NonFifoQueueGridDeparture { ticket } => {
                append_text(&mut out, "queue-grid departure for ticket ");
                append_decimal(&mut out, *ticket as u64);
                append_text(&mut out, " violates active FIFO order");
            },
            CoordinationError::QueueGridSlotCapacityExceeded { slot_count } => {
                append_text(&mut out, "queue-grid active tickets exceed the ");
                append_decimal(&mut out, *slot_count as u64);
                append_text(&mut out, "-slot geometry");
            },
            CoordinationError::MissingQueueGridTicketWindows { ticket } => {
                append_text(&mut out, "queue-grid ticket ");
                append_decimal(&mut out, *ticket as u64);
                append_text(&mut out, " has no active slot windows");
            },
            CoordinationError::UnboundQueueGridSlotRank { ticket, slot_rank } => {
                append_text(&mut out, "queue-grid ticket ");
                append_decimal(&mut out, *ticket as u64);
                append_text(&mut out, " references unbound slot rank ");
                append_decimal(&mut out, *slot_rank as u64);
            },
        }
        out
    }
}


pub open spec fn strictly_increasing_usize(s: Seq<usize>) -> bool {
    forall|i: int, j: int| 0 <= i < j < s.len() ==> s[i] < s[j]
}

pub open spec fn strictly_increasing_u64(s: Seq<u64>) -> bool {
    forall|i: int, j: int| 0 <= i < j < s.len() ==> s[i] < s[j]
}

/// Add `x` to an increasing list of distinct numbers, keeping it so.
fn insert_sorted(row: &mut Vec<usize>, x: usize)
    requires
        strictly_increasing_usize(old(row)@),
    ensures
        strictly_increasing_usize(final(row)@),
        forall|y: usize| final(row)@.contains(y) <==> (old(row)@.contains(y) || y == x),
{
    let mut p: usize = 0;
    while p < row.len() && row[p] < x
        invariant
            p <= row@.len(),
            forall|q: int| 0 <= q < p ==> row@[q] < x,
        decreases row@.len() - p,
    {
        p += 1;
    }
    if p < row.len() && row[p] == x {
        return;
    }
    let ghost before = row@;
    row.insert(p, x);
    proof {
        assert forall|i: int, j: int| 0 <= i < j < row@.len() implies row@[i] < row@[j] by {
            if i < p && j < p {
                assert(row@[i] == before[i] && row@[j] == before[j]);
            } else if i < p && j == p {
            } else if i < p {
                assert(row@[i] == before[i] && row@[j] == before[j - 1]);
            } else if i == p {
                assert(row@[j] == before[j - 1]);
                assert(before[p as int] > x);
                if j - 1 > p {
                    assert(before[p as int] < before[j - 1]);
                }
            } else {
                assert(row@[i] == before[i - 1] && row@[j] == before[j - 1]);
            }
        }
        assert forall|y: usize| row@.contains(y) <==> (before.contains(y) || y == x) by {
            if row@.contains(y) {
                let k = choose|k: int| 0 <= k < row@.len() && row@[k] == y;
                if k < p {
                    assert(before[k] == y);
                } else if k > p {
                    assert(before[k - 1] == y);
                }
            }
            if before.contains(y) {
                let k = choose|k: int| 0 <= k < before.len() && before[k] == y;
                if k < p {
                    assert(row@[k] == y);
                } else {
                    assert(row@[k + 1] == y);
                }
            }
            if y == x {
                assert(row@[p as int] == x);
            }
        }
        assert(old(row)@ == before);
        assert(forall|y: usize| row@.contains(y) <==> (before.contains(y) || y == x));
        assert(forall|y: usize| row@.contains(y) <==> (old(row)@.contains(y) || y == x));
    }
}

/// Whether an edge joins `i` and `j`, in either direction.
pub open spec fn joins(e: CoordinationRoadmapEdge, i: usize, j: usize) -> bool {
    (e.first_node == i && e.second_node == j) || (e.first_node == j && e.second_node == i)
}

pub open spec fn linked(edges: Seq<CoordinationRoadmapEdge>, i: usize, j: usize) -> bool {
    exists|k: int| 0 <= k < edges.len() && joins(#[trigger] edges[k], i, j)
}

/// `adj` lists, for each of `n` nodes, its neighbours in increasing order.
pub open spec fn is_adjacency(adj: Seq<Vec<usize>>, n: nat, edges: Seq<CoordinationRoadmapEdge>) -> bool {
    &&& adj.len() == n
    &&& forall|i: int| 0 <= i < n ==> strictly_increasing_usize(#[trigger] adj[i]@)
    &&& forall|i: int, j: usize| 0 <= i < n ==> (#[trigger] adj[i]@.contains(j) <==> linked(edges, i as usize, j))
}

pub open spec fn node_ok(surfaces: Seq<String>, finite: Seq<bool>, i: int) -> bool {
    surfaces[i]@.len() > 0 && finite[i]
}

pub open spec fn edge_ok(surfaces: Seq<String>, edges: Seq<CoordinationRoadmapEdge>, k: int) -> bool {
    let e = edges[k];
    e.first_node < surfaces.len() && e.second_node < surfaces.len() && e.first_node != e.second_node
        && surfaces[e.first_node as int]@ == surfaces[e.second_node as int]@
}

/// The error for the first node, or else the first edge, that is refused.
pub open spec fn roadmap_error(
    e: CoordinationError,
    surfaces: Seq<String>,
    finite: Seq<bool>,
    edges: Seq<CoordinationRoadmapEdge>,
) -> bool {
    if exists|i: int| 0 <= i < surfaces.len() && !#[trigger] node_ok(surfaces, finite, i) {
        exists|i: int|
            0 <= i < surfaces.len() && !#[trigger] node_ok(surfaces, finite, i) && (forall|q: int|
                0 <= q < i ==> node_ok(surfaces, finite, q)) && if surfaces[i]@.len() == 0 {
                e == CoordinationError::EmptyRoadmapSurface { node_index: i as usize }
            } else {
                e == CoordinationError::NonFiniteRoadmapNode { node_index: i as usize }
            }
    } else {
        exists|k: int|
            0 <= k < edges.len() && !#[trigger] edge_ok(surfaces, edges, k) && (forall|q: int|
                0 <= q < k ==> edge_ok(surfaces, edges, q)) && if edges[k].first_node >= surfaces.len()
                || edges[k].second_node >= surfaces.len() {
                e == CoordinationError::UnknownRoadmapNode { edge_index: k as usize }
            } else if edges[k].first_node == edges[k].second_node {
                e == CoordinationError::RoadmapSelfLoop { edge_index: k as usize }
            } else {
                e == CoordinationError::RoadmapCrossSurfaceEdge { edge_index: k as usize }
            }
    }
}

/// Validate a static roadmap and build its undirected adjacency. Node `i`
/// lies on surface `surfaces[i]`; `finite[i]` says whether its coordinates
/// are finite. Each node must have a surface and finite coordinates; each
/// edge must join two distinct known nodes on one surface.
pub fn roadmap_adjacency(
    surfaces: &Vec<String>,
    finite: &Vec<bool>,
    edges: &Vec<CoordinationRoadmapEdge>,
) -> (r: Result<Vec<Vec<usize>>, CoordinationError>)
    requires
        finite@.len() == surfaces@.len(),
    ensures
        r is Ok <==> (forall|i: int| 0 <= i < surfaces@.len() ==> #[trigger] node_ok(surfaces@, finite@, i))
            && (forall|k: int| 0 <= k < edges@.len() ==> #[trigger] edge_ok(surfaces@, edges@, k)),
        r matches Ok(adj) ==> is_adjacency(adj@, surfaces@.len(), edges@),
        r matches Err(e) ==> roadmap_error(e, surfaces@, finite@, edges@),
{
    let n = surfaces.len();
    let mut i: usize = 0;
    while i < n
        invariant
            n == surfaces@.len(),
            finite@.len() == n,
            i <= n,
            forall|q: int| 0 <= q < i ==> node_ok(surfaces@, finite@, q),
        decreases n - i,
    {
        if surfaces[i].as_str().is_empty() {
            proof {
                assert(!node_ok(surfaces@, finite@, i as int));
            }
            return Err(CoordinationError::EmptyRoadmapSurface { node_index: i });
        }
        if !finite[i] {
            proof {
                assert(!node_ok(surfaces@, finite@, i as int));
            }
            return Err(CoordinationError::NonFiniteRoadmapNode { node_index: i });
        }
        i += 1;
    }
    let mut adjacency: Vec<Vec<usize>> = Vec::new();
    let mut m: usize = 0;
    while m < n
        invariant
            m <= n,
            adjacency@.len() == m,
            forall|q: int| 0 <= q < m ==> (#[trigger] adjacency@[q])@ == Seq::<usize>::empty(),
        decreases n - m,
    {
        adjacency.push(Vec::new());
        m += 1;
    }
    let mut k: usize = 0;
    while k < edges.len()
        invariant
            n == surfaces@.len(),
            finite@.len() == n,
            forall|q: int| 0 <= q < n ==> node_ok(surfaces@, finite@, q),
            k <= edges@.len(),
            forall|q: int| 0 <= q < k ==> edge_ok(surfaces@, edges@, q),
            is_adjacency(adjacency@, n as nat, edges@.take(k as int)),
        decreases edges@.len() - k,
    {
        let e = edges[k];
        if e.first_node >= n || e.second_node >= n {
            proof {
                assert(!edge_ok(surfaces@, edges@, k as int));
            }
            return Err(CoordinationError::UnknownRoadmapNode { edge_index: k });
        }
        if e.first_node == e.second_node {
            proof {
                assert(!edge_ok(surfaces@, edges@, k as int));
            }
            return Err(CoordinationError::RoadmapSelfLoop { edge_index: k });
        }
        if !text_eq(surfaces[e.first_node].as_str(), surfaces[e.second_node].as_str()) {
            proof {
                assert(!edge_ok(surfaces@, edges@, k as int));
            }
            return Err(CoordinationError::RoadmapCrossSurfaceEdge { edge_index: k });
        }
        let ghost before = adjacency@;
        let ghost done = edges@.take(k as int);
        let ghost next = edges@.take(k + 1);
        proof {
            assert(next =~= done.push(e));
            assert forall|i: usize, j: usize| linked(next, i, j) <==> (linked(done, i, j) || joins(e, i, j)) by {
                if linked(next, i, j) {
                    let q = choose|q: int| 0 <= q < next.len() && joins(#[trigger] next[q], i, j);
                    if q < done.len() {
                        assert(done[q] == next[q]);
                    }
                }
                if linked(done, i, j) {
                    let q = choose|q: int| 0 <= q < done.len() && joins(#[trigger] done[q], i, j);
                    assert(next[q] == done[q]);
                }
                if joins(e, i, j) {
                    assert(next[k as int] == e);
                }
            }
        }
        insert_sorted(&mut adjacency[e.first_node], e.second_node);
        let ghost middle = adjacency@;
        insert_sorted(&mut adjacency[e.second_node], e.first_node);
        proof {
            assert forall|i: int, j: usize| 0 <= i < n implies (#[trigger] adjacency@[i]@.contains(j)
                <==> linked(next, i as usize, j)) by {
                if i != e.first_node && i != e.second_node {
                    assert(adjacency@[i] == before[i]);
                }
            }
            assert forall|i: int| 0 <= i < n implies strictly_increasing_usize(#[trigger] adjacency@[i]@) by {
                if i != e.first_node && i != e.second_node {
                    assert(adjacency@[i] == before[i]);
                } else if i == e.first_node {
                    assert(adjacency@[i] == middle[i]);
                }
            }
        }
        k += 1;
    }
    proof {
        assert(edges@.take(edges@.len() as int) =~= edges@);
    }
    Ok(adjacency)
}

/// Add `x` to an increasing list of distinct tickets, keeping it so.
fn insert_ticket(row: &mut Vec<u64>, x: u64)
    requires
        strictly_increasing_u64(old(row)@),
    ensures
        strictly_increasing_u64(final(row)@),
        forall|y: u64| final(row)@.contains(y) <==> (old(row)@.contains(y) || y == x),
{
    let mut p: usize = 0;
    while p < row.len() && row[p] < x
        invariant
            p <= row@.len(),
            forall|q: int| 0 <= q < p ==> row@[q] < x,
        decreases row@.len() - p,
    {
        p += 1;
    }
    if p < row.len() && row[p] == x {
        return;
    }
    let ghost before = row@;
    row.insert(p, x);
    proof {
        assert forall|i: int, j: int| 0 <= i < j < row@.len() implies row@[i] < row@[j] by {
            if i < p && j < p {
                assert(row@[i] == before[i] && row@[j] == before[j]);
            } else if i < p && j == p {
            } else if i < p {
                assert(row@[i] == before[i] && row@[j] == before[j - 1]);
            } else if i == p {
                assert(row@[j] == before[j - 1]);
                assert(before[p as int] > x);
                if j - 1 > p {
                    assert(before[p as int] < before[j - 1]);
                }
            } else {
                assert(row@[i] == before[i - 1] && row@[j] == before[j - 1]);
            }
        }
        assert forall|y: u64| row@.contains(y) <==> (before.contains(y) || y == x) by {
            if row@.contains(y) {
                let k = choose|k: int| 0 <= k < row@.len() && row@[k] == y;
                if k < p {
                    assert(before[k] == y);
                } else if k > p {
                    assert(before[k - 1] == y);
                }
            }
            if before.contains(y) {
                let k = choose|k: int| 0 <= k < before.len() && before[k] == y;
                if k < p {
                    assert(row@[k] == y);
                } else {
                    assert(row@[k + 1] == y);
                }
            }
            if y == x {
                assert(row@[p as int] == x);
            }
        }
        assert(old(row)@ == before);
        assert(forall|y: u64| row@.contains(y) <==> (old(row)@.contains(y) || y == x));
    }
}

/// `t` is among the first `n` items of `s`.
pub open spec fn among(s: Seq<u64>, n: int, t: u64) -> bool {
    exists|k: int| 0 <= k < n && s[k] == t
}

/// A ticket already active, or activating now.
pub open spec fn in_queue(active: Seq<u64>, activating: Seq<u64>, t: u64) -> bool {
    active.contains(t) || activating.contains(t)
}

/// A departing ticket that is not the queue's head when its turn comes:
/// it is not in the queue, or some ticket ahead of it stays.
pub open spec fn out_of_turn(active: Seq<u64>, activating: Seq<u64>, departing: Seq<u64>, d: u64) -> bool {
    !in_queue(active, activating, d) || exists|u: u64|
        #![trigger in_queue(active, activating, u), departing.contains(u)]
        in_queue(active, activating, u) && u < d && !departing.contains(u)
}

/// One event instant of a queue grid: tickets in `activating` join the FIFO
/// queue `active`, which holds its tickets in increasing order, and then the
/// tickets in `departing` take service from its head, in increasing order.
/// The queue may hold at most `slot_count` tickets.
pub fn advance_queue(active: &mut Vec<u64>, activating: &Vec<u64>, departing: &Vec<u64>, slot_count: u32) -> (r: Result<
    (),
    CoordinationError,
>)
    requires
        strictly_increasing_u64(old(active)@),
        departing@.no_duplicates(),
    ensures
        r is Ok <==> (old(active)@ + activating@).to_set().len() <= slot_count && forall|d: u64|
            #[trigger] departing@.contains(d) ==> !out_of_turn(old(active)@, activating@, departing@, d),
        r is Ok ==> strictly_increasing_u64(final(active)@) && forall|t: u64| #[trigger] final(active)@.contains(t)
            <==> (in_queue(old(active)@, activating@, t) && !departing@.contains(t)),
        r is Err ==> final(active)@ == old(active)@,
        r matches Err(e) ==> if (old(active)@ + activating@).to_set().len() > slot_count {
            e == CoordinationError::QueueGridSlotCapacityExceeded { slot_count }
        } else {
            e matches CoordinationError::NonFifoQueueGridDeparture { ticket } && departing@.contains(ticket)
                && out_of_turn(old(active)@, activating@, departing@, ticket) && forall|d: u64|
                #[trigger] departing@.contains(d) && d < ticket ==> !out_of_turn(
                old(active)@,
                activating@,
                departing@,
                d,
            )
        },
{
    let ghost a0 = active@;
    let ghost acts = activating@;
    let ghost deps = departing@;
    let mut queue: Vec<u64> = active.clone();
    proof {
        assert(queue@ =~= a0);
    }
    let mut i: usize = 0;
    while i < activating.len()
        invariant
            a0 == old(active)@,
            active@ == a0,
            acts == activating@,
            i <= acts.len(),
            strictly_increasing_u64(queue@),
            forall|t: u64| #[trigger] queue@.contains(t) <==> (a0.contains(t) || among(acts, i as int, t)),
        decreases acts.len() - i,
    {
        let ghost q0 = queue@;
        insert_ticket(&mut queue, activating[i]);
        proof {
            assert forall|t: u64| #[trigger] queue@.contains(t) <==> (a0.contains(t) || among(acts, i + 1, t)) by {
                assert(queue@.contains(t) <==> (q0.contains(t) || t == acts[i as int]));
                assert(q0.contains(t) <==> (a0.contains(t) || among(acts, i as int, t)));
                if among(acts, i + 1, t) && t != acts[i as int] {
                    let k = choose|k: int| 0 <= k < i + 1 && acts[k] == t;
                    assert(among(acts, i as int, t));
                }
                if t == acts[i as int] {
                    assert(among(acts, i + 1, t));
                }
                if among(acts, i as int, t) {
                    let k = choose|k: int| 0 <= k < i && acts[k] == t;
                    assert(among(acts, i + 1, t));
                }
            }
        }
        i += 1;
    }
    proof {
        assert forall|t: u64| #[trigger] queue@.contains(t) <==> in_queue(a0, acts, t) by {
            if among(acts, acts.len() as int, t) {
                let k = choose|k: int| 0 <= k < acts.len() && acts[k] == t;
                assert(acts.contains(t));
            }
            if acts.contains(t) {
                let k = choose|k: int| 0 <= k < acts.len() && acts[k] == t;
                assert(among(acts, acts.len() as int, t));
            }
        }
        assert(queue@.no_duplicates());
        queue@.unique_seq_to_set();
        assert(queue@.to_set() =~= (a0 + acts).to_set()) by {
            assert forall|t: u64| queue@.to_set().contains(t) <==> (a0 + acts).to_set().contains(t) by {
                if a0.contains(t) {
                    let k = choose|k: int| 0 <= k < a0.len() && a0[k] == t;
                    assert((a0 + acts)[k] == t);
                }
                if acts.contains(t) {
                    let k = choose|k: int| 0 <= k < acts.len() && acts[k] == t;
                    assert((a0 + acts)[a0.len() + k] == t);
                }
                if (a0 + acts).contains(t) {
                    let k = choose|k: int| 0 <= k < (a0 + acts).len() && (a0 + acts)[k] == t;
                    if k < a0.len() {
                        assert(a0[k] == t);
                    } else {
                        assert(acts[k - a0.len()] == t);
                    }
                }
            }
        }
    }
    if queue.len() > slot_count as usize {
        return Err(CoordinationError::QueueGridSlotCapacityExceeded { slot_count });
    }
    let mut order: Vec<u64> = Vec::new();
    let mut j: usize = 0;
    while j < departing.len()
        invariant
            a0 == old(active)@,
            active@ == a0,
            acts == activating@,
            (a0 + acts).to_set().len() <= slot_count,
            deps == departing@,
            j <= deps.len(),
            strictly_increasing_u64(order@),
            forall|t: u64| #[trigger] order@.contains(t) <==> among(deps, j as int, t),
        decreases deps.len() - j,
    {
        let ghost o0 = order@;
        insert_ticket(&mut order, departing[j]);
        proof {
            assert forall|t: u64| #[trigger] order@.contains(t) <==> among(deps, j + 1, t) by {
                assert(order@.contains(t) <==> (o0.contains(t) || t == deps[j as int]));
                assert(o0.contains(t) <==> among(deps, j as int, t));
                if among(deps, j + 1, t) && t != deps[j as int] {
                    let k = choose|k: int| 0 <= k < j + 1 && deps[k] == t;
                    assert(among(deps, j as int, t));
                }
                if t == deps[j as int] {
                    assert(among(deps, j + 1, t));
                }
                if among(deps, j as int, t) {
                    let k = choose|k: int| 0 <= k < j && deps[k] == t;
                    assert(among(deps, j + 1, t));
                }
            }
        }
        j += 1;
    }
    proof {
        assert forall|t: u64| #[trigger] order@.contains(t) <==> deps.contains(t) by {
            if among(deps, deps.len() as int, t) {
                let k = choose|k: int| 0 <= k < deps.len() && deps[k] == t;
                assert(deps.contains(t));
            }
            if deps.contains(t) {
                let k = choose|k: int| 0 <= k < deps.len() && deps[k] == t;
                assert(among(deps, deps.len() as int, t));
            }
        }
    }
    // Serve the departing tickets in increasing order, each from the head.
    let ghost full = queue@;
    let mut k: usize = 0;
    while k < order.len()
        invariant
            a0 == old(active)@,
            active@ == a0,
            acts == activating@,
            (a0 + acts).to_set().len() <= slot_count,
            deps == departing@,
            strictly_increasing_u64(full),
            forall|t: u64| full.contains(t) <==> in_queue(a0, acts, t),
            strictly_increasing_u64(order@),
            forall|t: u64| order@.contains(t) <==> deps.contains(t),
            k <= order@.len(),
            k <= full.len(),
            queue@ == full.skip(k as int),
            forall|q: int| 0 <= q < k ==> order@[q] == full[q],
        decreases order@.len() - k,
    {
        let t = order[k];
        if queue.len() == 0 || queue[0] != t {
            proof {
                lemma_first_out_of_turn(a0, acts, deps, full, order@, k as int);
            }
            return Err(CoordinationError::NonFifoQueueGridDeparture { ticket: t });
        }
        queue.remove(0);
        proof {
            assert(queue@ =~= full.skip(k + 1));
        }
        k += 1;
    }
    proof {
        lemma_all_in_turn(a0, acts, deps, full, order@);
        assert forall|t: u64| #[trigger] queue@.contains(t) <==> (in_queue(a0, acts, t) && !deps.contains(t)) by {
            if queue@.contains(t) {
                let q = choose|q: int| 0 <= q < queue@.len() && queue@[q] == t;
                assert(full[k + q] == t);
                assert(full.contains(t));
                if deps.contains(t) {
                    assert(order@.contains(t));
                    let p = choose|p: int| 0 <= p < order@.len() && order@[p] == t;
                    assert(full[p] == t);
                    assert(p < k + q);
                    assert(full[p] < full[k + q]);
                }
            }
            if in_queue(a0, acts, t) && !deps.contains(t) {
                assert(full.contains(t));
                let q = choose|q: int| 0 <= q < full.len() && full[q] == t;
                if q < k {
                    assert(order@[q] == t);
                    assert(order@.contains(t));
                } else {
                    assert(queue@[q - k] == t);
                    assert(queue@.contains(t));
                }
            }
        }
        assert forall|i: int, j: int| 0 <= i < j < queue@.len() implies queue@[i] < queue@[j] by {
            assert(queue@[i] == full[k + i] && queue@[j] == full[k + j]);
        }
    }
    *active = queue;
    Ok(())
}

/// When the departures served so far were the queue's head in turn and the
/// `k`-th is not, it is the smallest departing ticket out of turn.
proof fn lemma_first_out_of_turn(
    a0: Seq<u64>,
    acts: Seq<u64>,
    deps: Seq<u64>,
    full: Seq<u64>,
    order: Seq<u64>,
    k: int,
)
    requires
        strictly_increasing_u64(full),
        forall|t: u64| full.contains(t) <==> in_queue(a0, acts, t),
        strictly_increasing_u64(order),
        forall|t: u64| order.contains(t) <==> deps.contains(t),
        0 <= k < order.len(),
        k <= full.len(),
        forall|q: int| 0 <= q < k ==> order[q] == full[q],
        k == full.len() || full[k] != order[k],
    ensures
        deps.contains(order[k]),
        out_of_turn(a0, acts, deps, order[k]),
        forall|d: u64| #[trigger] deps.contains(d) && d < order[k] ==> !out_of_turn(a0, acts, deps, d),
{
    let t = order[k];
    assert(order.contains(t));
    if in_queue(a0, acts, t) {
        assert(full.contains(t));
        let p = choose|p: int| 0 <= p < full.len() && full[p] == t;
        // `t` is in the queue but not at position `k`: a ticket ahead of it stays.
        if p < k {
            assert(order[p] == full[p]);
            assert(order[p] < order[k]);
        } else {
            assert(p > k);
            let u = full[k];
            assert(u < t);
            assert(full.contains(u));
            if deps.contains(u) {
                assert(order.contains(u));
                let q = choose|q: int| 0 <= q < order.len() && order[q] == u;
                if q < k {
                    assert(full[q] == u);
                    assert(full[q] < full[k]);
                } else if q == k {
                } else {
                    assert(order[k] < order[q]);
                }
            }
            assert(in_queue(a0, acts, u) && u < t && !deps.contains(u));
        }
    }
    assert forall|d: u64| #[trigger] deps.contains(d) && d < t implies !out_of_turn(a0, acts, deps, d) by {
        assert(order.contains(d));
        let q = choose|q: int| 0 <= q < order.len() && order[q] == d;
        if q >= k {
            if q > k {
                assert(order[k] < order[q]);
            }
        }
        assert(q < k);
        assert(full[q] == d);
        assert(full.contains(d));
        assert forall|u: u64| in_queue(a0, acts, u) && u < d implies deps.contains(u) by {
            assert(full.contains(u));
            let pu = choose|pu: int| 0 <= pu < full.len() && full[pu] == u;
            if pu >= q {
                if pu > q {
                    assert(full[q] < full[pu]);
                }
            }
            assert(pu < q);
            assert(order[pu] == u);
            assert(order.contains(u));
        }
    }
}

/// When every departure was the queue's head in turn, none is out of turn.
proof fn lemma_all_in_turn(a0: Seq<u64>, acts: Seq<u64>, deps: Seq<u64>, full: Seq<u64>, order: Seq<u64>)
    requires
        strictly_increasing_u64(full),
        forall|t: u64| full.contains(t) <==> in_queue(a0, acts, t),
        strictly_increasing_u64(order),
        forall|t: u64| order.contains(t) <==> deps.contains(t),
        order.len() <= full.len(),
        forall|q: int| 0 <= q < order.len() ==> order[q] == full[q],
    ensures
        forall|d: u64| #[trigger] deps.contains(d) ==> !out_of_turn(a0, acts, deps, d),
{
    assert forall|d: u64| #[trigger] deps.contains(d) implies !out_of_turn(a0, acts, deps, d) by {
        assert(order.contains(d));
        let q = choose|q: int| 0 <= q < order.len() && order[q] == d;
        assert(full[q] == d);
        assert(full.contains(d));
        assert forall|u: u64| in_queue(a0, acts, u) && u < d implies deps.contains(u) by {
            assert(full.contains(u));
            let pu = choose|pu: int| 0 <= pu < full.len() && full[pu] == u;
            if pu >= q {
                if pu > q {
                    assert(full[q] < full[pu]);
                }
            }
            assert(pu < q);
            assert(order[pu] == u);
            assert(order.contains(u));
        }
    }
}

/// A roadmap's adjacency is undirected: `j` neighbours `i` exactly when `i`
/// neighbours `j`.
pub proof fn lemma_adjacency_symmetric(
    adj: Seq<Vec<usize>>,
    n: nat,
    edges: Seq<CoordinationRoadmapEdge>,
    i: usize,
    j: usize,
)
    requires
        is_adjacency(adj, n, edges),
        i < n,
        j < n,
    ensures
        adj[i as int]@.contains(j) <==> adj[j as int]@.contains(i),
{
    assert(adj[i as int]@.contains(j) <==> linked(edges, i, j));
    assert(adj[j as int]@.contains(i) <==> linked(edges, j, i));
    if linked(edges, i, j) {
        let k = choose|k: int| 0 <= k < edges.len() && joins(#[trigger] edges[k], i, j);
        assert(joins(edges[k], j, i));
    }
    if linked(edges, j, i) {
        let k = choose|k: int| 0 <= k < edges.len() && joins(#[trigger] edges[k], j, i);
        assert(joins(edges[k], i, j));
    }
}

/// A queue-grid instant serves its departing tickets from the head of the
/// FIFO queue: every ticket that stays is later than every ticket that left.
pub proof fn lemma_departures_leave_from_the_head(
    active: Seq<u64>,
    activating: Seq<u64>,
    departing: Seq<u64>,
    remaining: Seq<u64>,
)
    requires
        forall|d: u64| #[trigger] departing.contains(d) ==> !out_of_turn(active, activating, departing, d),
        forall|t: u64| #[trigger] remaining.contains(t) <==> (in_queue(active, activating, t) && !departing.contains(t)),
    ensures
        forall|d: u64, t: u64| departing.contains(d) && remaining.contains(t) ==> d < t,
{
    assert forall|d: u64, t: u64| departing.contains(d) && remaining.contains(t) implies d < t by {
        assert(!out_of_turn(active, activating, departing, d));
        assert(in_queue(active, activating, t) && !departing.contains(t));
        if t < d {
            assert(in_queue(active, activating, t) && t < d && !departing.contains(t));
        }
    }
}

} // verus!
