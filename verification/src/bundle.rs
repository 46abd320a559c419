//! The discrete parts of a run bundle: agent states, information-delivery
//! counts, and the content hash that makes a bundle self-verifying.

use vstd::prelude::*;
use crate::digest::{hex_digest, hex_lower, sha256};
use crate::text::text_eq;

verus! {

/// What an agent is doing at a trace frame.
#[derive(Debug, Clone, Copy, PartialEq, Eq, Structural)]
pub enum AgentState {
    Moving,
    WaitingToDepart,
    WaitingAtWaypoint,
    WaitingForRoute,
    WaitingForLift,
    WaitingForConnector,
    WaitingForGate,
    WaitingForExit,
    InTransit,
    Evacuated,
}

/// The snake-case name of a state, as bundles record it.
pub open spec fn agent_state_word(s: AgentState) -> Seq<char> {
    match s {
        AgentState::Moving => "moving"@,
        AgentState::WaitingToDepart => "waiting_to_depart"@,
        AgentState::WaitingAtWaypoint => "waiting_at_waypoint"@,
        AgentState::WaitingForRoute => "waiting_for_route"@,
        AgentState::WaitingForLift => "waiting_for_lift"@,
        AgentState::WaitingForConnector => "waiting_for_connector"@,
        AgentState::WaitingForGate => "waiting_for_gate"@,
        AgentState::WaitingForExit => "waiting_for_exit"@,
        AgentState::InTransit => "in_transit"@,
        AgentState::Evacuated => "evacuated"@,
    }
}

impl AgentState {
    pub fn name(&self) -> (r: &'static str)
        ensures
            r@ == agent_state_word(*self),
    {
        match self {
            AgentState::Moving => "moving",
            AgentState::WaitingToDepart => "waiting_to_depart",
            AgentState::WaitingAtWaypoint => "waiting_at_waypoint",
            AgentState::WaitingForRoute => "waiting_for_route",
            AgentState::WaitingForLift => "waiting_for_lift",
            AgentState::WaitingForConnector => "waiting_for_connector",
            AgentState::WaitingForGate => "waiting_for_gate",
            AgentState::WaitingForExit => "waiting_for_exit",
            AgentState::InTransit => "in_transit",
            AgentState::Evacuated => "evacuated",
        }
    }
}

/// The kind of an authored information intervention.
#[derive(Debug, Clone, Copy, PartialEq, Eq, Structural)]
pub enum InformationInterventionKind {
    Message,
    Countermeasure,
}

/// Aggregate delivery and acceptance counts for one authored information
/// intervention. Counts are deterministic runtime observations, not survey or
/// behavioral measurements.
#[derive(Debug, Clone, Copy, PartialEq, Eq, Structural)]
pub struct InformationDeliveryMetrics {
    pub kind: InformationInterventionKind,
    pub received_agents: u32,
    pub accepted_agents: u32,
}

impl InformationDeliveryMetrics {
    /// No agent reached yet.
    pub fn new(kind: InformationInterventionKind) -> (r: Self)
        ensures
            r.kind == kind,
            r.received_agents == 0,
            r.accepted_agents == 0,
    {
        InformationDeliveryMetrics { kind, received_agents: 0, accepted_agents: 0 }
    }

    /// One more agent was reached; `accepted` says whether it accepted the claim.
    pub fn record(&mut self, accepted: bool)
        requires
            old(self).received_agents < u32::MAX,
            accepted ==> old(self).accepted_agents < u32::MAX,
        ensures
            final(self).kind == old(self).kind,
            final(self).received_agents == old(self).received_agents + 1,
            final(self).accepted_agents == old(self).accepted_agents + if accepted {
                1int
            } else {
                0int
            },
    {
        self.received_agents = self.received_agents + 1;
        if accepted {
            self.accepted_agents = self.accepted_agents + 1;
        }
    }
}

/// The content hash of a canonical serialization: its SHA-256 in lower-case
/// hexadecimal.
pub fn canonical_hash(serialized: &[u8]) -> (r: String)
    ensures
        r@ == hex_lower(sha256(serialized@)),
{
    hex_digest(serialized)
}

/// Whether a recorded hash is the content hash of the serialization it was
/// recorded for (the bundle with its own hash field cleared).
pub fn verifies_hash(recorded: &str, unsigned_serialized: &[u8]) -> (r: bool)
    ensures
        r == (recorded@ == hex_lower(sha256(unsigned_serialized@))),
{
    let expected = hex_digest(unsigned_serialized);
    text_eq(recorded, expected.as_str())
}

} // verus!
