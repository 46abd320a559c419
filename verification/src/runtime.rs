//! The discrete decisions of the simulation runtime: run options, the agent
//! state a trace frame records, and the deterministic draw that decides
//! whether an agent accepts an information intervention.

use vstd::prelude::*;
use vstd::wrapping::u64_specs::{wrapping_add, wrapping_mul};
use vstd::string::StringSliceAdditionalSpecFns;
use crate::bundle::AgentState;
use crate::text::{append_text, owned};
use crate::lexer::string_views;

verus! {

/// Options of one run.
#[derive(Debug, Clone, Copy, PartialEq, Eq, Structural)]
pub struct RunOptions {
    /// Write one trace frame after this many integration steps.
    pub trace_every_steps: u32,
}

impl Default for RunOptions {
    fn default() -> (r: Self)
        ensures
            r.trace_every_steps == 10,
    {
        RunOptions { trace_every_steps: 10 }
    }
}

/// Why a run could not start.
#[derive(Debug, Clone)]
pub enum RunError {
    /// The scenario failed validation; one message per problem.
    InvalidScenario(Vec<String>),
    NoRoute { agent_group: String, destination: String },
    InvalidOptions(String),
}

/// The messages joined by `; `.
pub open spec fn joined_messages_text(messages: Seq<Seq<char>>) -> Seq<char>
    decreases messages.len(),
{
    if messages.len() == 0 {
        Seq::empty()
    } else if messages.len() == 1 {
        messages[0]
    } else {
        joined_messages_text(messages.drop_last()) + "; "@ + messages.last()
    }
}

impl RunError {
    /// The error's message.
    pub fn to_text(&self) -> (r: String)
        ensures
            self matches RunError::InvalidScenario(errors) ==> r@ == "scenario validation failed: "@
                + joined_messages_text(string_views(errors@)),
            self matches RunError::NoRoute { agent_group, destination } ==> r@ == "agent group `"@
                + agent_group@ + "` has no route to `"@ + destination@ + "`"@,
            self matches RunError::InvalidOptions(m) ==> r@ == "invalid run options: "@ + m@,
    {
        let mut out = String::new();
        match self {
            RunError::InvalidScenario(errors) => {
                append_text(&mut out, "scenario validation failed: ");
                let ghost prefix = out@;
                let mut i: usize = 0;
                while i < errors.len()
                    invariant
                        i <= errors@.len(),
                        prefix == "scenario validation failed: "@,
                        out@ == prefix + joined_messages_text(string_views(errors@.take(i as int))),
                    decreases errors@.len() - i,
                {
                    proof {
                        assert(string_views(errors@.take(i + 1)).drop_last() =~= string_views(
                            errors@.take(i as int),
                        ));
                        assert(string_views(errors@.take(i + 1)).last() == errors@[i as int]@);
                    }
                    if i > 0 {
                        append_text(&mut out, "; ");
                    }
                    append_text(&mut out, errors[i].as_str());
                    proof {
                        if i == 0 {
                            assert(string_views(errors@.take(1)) =~= seq![errors@[0]@]);
                        }
                        assert(out@ =~= prefix + joined_messages_text(string_views(errors@.take(i + 1))));
                    }
                    i += 1;
                }
                proof {
                    assert(errors@.take(i as int) =~= errors@);
                }
            },
            RunError::NoRoute { agent_group, destination } => {
                append_text(&mut out, "agent group `");
                append_text(&mut out, agent_group.as_str());
                append_text(&mut out, "` has no route to `");
                append_text(&mut out, destination.as_str());
                append_text(&mut out, "`");
            },
            RunError::InvalidOptions(m) => {
                append_text(&mut out, "invalid run options: ");
                append_text(&mut out, m.as_str());
            },
        }
        out
    }
}

/// A run needs a positive trace interval.
pub fn check_run_options(options: &RunOptions) -> (r: Result<(), RunError>)
    ensures
        r is Ok <==> options.trace_every_steps > 0,
        r matches Err(e) ==> (e matches RunError::InvalidOptions(m) && m@
            == "trace_every_steps must be greater than zero"@),
{
    if options.trace_every_steps == 0 {
        Err(RunError::InvalidOptions(owned("trace_every_steps must be greater than zero")))
    } else {
        Ok(())
    }
}

/// Whether step `step` of `step_count` writes a trace frame: every
/// `trace_every_steps` steps, and always the last one.
pub fn records_frame(step: u64, trace_every_steps: u32, step_count: u64) -> (r: bool)
    requires
        trace_every_steps > 0,
    ensures
        r == (step % (trace_every_steps as u64) == 0 || step == step_count),
{
    step % (trace_every_steps as u64) == 0 || step == step_count
}

/// How an agent moves between authored places.
#[derive(Debug, Clone, Copy, PartialEq, Eq, Structural)]
pub enum MotionPhase {
    WaitingToDepart,
    WaitingAtWaypoint,
    OnSurface,
    Transit,
    Evacuated,
}

/// What an agent on a surface waits for at a connector.
#[derive(Debug, Clone, Copy, PartialEq, Eq, Structural)]
pub enum ConnectorWait {
    Lift,
    Capacity,
}

/// The state a trace frame records for an agent: a route or exit wait takes
/// precedence over a connector wait, in that order.
pub open spec fn agent_state_of(
    phase: MotionPhase,
    waiting_for_route: bool,
    waiting_for_exit: bool,
    waiting_connector: Option<ConnectorWait>,
) -> AgentState {
    match phase {
        MotionPhase::WaitingToDepart => AgentState::WaitingToDepart,
        MotionPhase::WaitingAtWaypoint => AgentState::WaitingAtWaypoint,
        MotionPhase::OnSurface => if waiting_for_route {
            AgentState::WaitingForRoute
        } else if waiting_for_exit {
            AgentState::WaitingForExit
        } else {
            match waiting_connector {
                Some(ConnectorWait::Lift) => AgentState::WaitingForLift,
                Some(ConnectorWait::Capacity) => AgentState::WaitingForConnector,
                None => AgentState::Moving,
            }
        },
        MotionPhase::Transit => AgentState::InTransit,
        MotionPhase::Evacuated => AgentState::Evacuated,
    }
}

pub fn agent_state(
    phase: MotionPhase,
    waiting_for_route: bool,
    waiting_for_exit: bool,
    waiting_connector: Option<ConnectorWait>,
) -> (r: AgentState)
    ensures
        r == agent_state_of(phase, waiting_for_route, waiting_for_exit, waiting_connector),
{
    match phase {
        MotionPhase::WaitingToDepart => AgentState::WaitingToDepart,
        MotionPhase::WaitingAtWaypoint => AgentState::WaitingAtWaypoint,
        MotionPhase::OnSurface => if waiting_for_route {
            AgentState::WaitingForRoute
        } else if waiting_for_exit {
            AgentState::WaitingForExit
        } else {
            match waiting_connector {
                Some(ConnectorWait::Lift) => AgentState::WaitingForLift,
                Some(ConnectorWait::Capacity) => AgentState::WaitingForConnector,
                None => AgentState::Moving,
            }
        },
        MotionPhase::Transit => AgentState::InTransit,
        MotionPhase::Evacuated => AgentState::Evacuated,
    }
}

/// How the state a trace frame records for an agent follows from its phase
/// and waits. Only an agent on a surface has a wait state: a route wait
/// comes first, then an exit wait (whatever connector wait is also set),
/// then a lift or capacity wait; an agent on a surface without a wait is
/// moving. The other phases record their own state, whatever the waits.
pub proof fn lemma_agent_state_precedence(
    phase: MotionPhase,
    waiting_for_route: bool,
    waiting_for_exit: bool,
    waiting_connector: Option<ConnectorWait>,
)
    ensures
        phase == MotionPhase::OnSurface && waiting_for_route ==> agent_state_of(
            phase,
            waiting_for_route,
            waiting_for_exit,
            waiting_connector,
        ) == AgentState::WaitingForRoute,
        phase == MotionPhase::OnSurface && !waiting_for_route && waiting_for_exit ==> agent_state_of(
            phase,
            waiting_for_route,
            waiting_for_exit,
            waiting_connector,
        ) == AgentState::WaitingForExit,
        phase == MotionPhase::OnSurface && !waiting_for_route && !waiting_for_exit && waiting_connector
            == Some(ConnectorWait::Lift) ==> agent_state_of(
            phase,
            waiting_for_route,
            waiting_for_exit,
            waiting_connector,
        ) == AgentState::WaitingForLift,
        phase == MotionPhase::OnSurface && !waiting_for_route && !waiting_for_exit && waiting_connector
            == Some(ConnectorWait::Capacity) ==> agent_state_of(
            phase,
            waiting_for_route,
            waiting_for_exit,
            waiting_connector,
        ) == AgentState::WaitingForConnector,
        phase == MotionPhase::OnSurface && !waiting_for_route && !waiting_for_exit && waiting_connector
            is None ==> agent_state_of(phase, waiting_for_route, waiting_for_exit, waiting_connector)
            == AgentState::Moving,
        phase == MotionPhase::WaitingToDepart ==> agent_state_of(
            phase,
            waiting_for_route,
            waiting_for_exit,
            waiting_connector,
        ) == AgentState::WaitingToDepart,
        phase == MotionPhase::WaitingAtWaypoint ==> agent_state_of(
            phase,
            waiting_for_route,
            waiting_for_exit,
            waiting_connector,
        ) == AgentState::WaitingAtWaypoint,
        phase == MotionPhase::Transit ==> agent_state_of(
            phase,
            waiting_for_route,
            waiting_for_exit,
            waiting_connector,
        ) == AgentState::InTransit,
        phase == MotionPhase::Evacuated ==> agent_state_of(
            phase,
            waiting_for_route,
            waiting_for_exit,
            waiting_connector,
        ) == AgentState::Evacuated,
{
}

/// The SplitMix64 finalizer (Steele, Lea and Flood), with 64-bit wrapping
/// arithmetic.
pub open spec fn splitmix64_spec(v: u64) -> u64 {
    let a = wrapping_add(v, 0x9e37_79b9_7f4a_7c15);
    let b = wrapping_mul(a ^ (a >> 30u64), 0xbf58_476d_1ce4_e5b9);
    let c = wrapping_mul(b ^ (b >> 27u64), 0x94d0_49bb_1331_11eb);
    c ^ (c >> 31u64)
}

pub fn splitmix64(value: u64) -> (r: u64)
    ensures
        r == splitmix64_spec(value),
{
    let a = value.wrapping_add(0x9e37_79b9_7f4a_7c15);
    let b = (a ^ (a >> 30)).wrapping_mul(0xbf58_476d_1ce4_e5b9);
    let c = (b ^ (b >> 27)).wrapping_mul(0x94d0_49bb_1331_11eb);
    c ^ (c >> 31)
}

/// One FNV-1a step over a byte (64-bit prime, wrapping).
pub open spec fn fnv_step(state: u64, byte: u8) -> u64 {
    wrapping_mul(state ^ (byte as u64), 0x1000_0000_01b3)
}

pub open spec fn fnv_bytes(state: u64, bytes: Seq<u8>) -> u64
    decreases bytes.len(),
{
    if bytes.len() == 0 {
        state
    } else {
        fnv_step(fnv_bytes(state, bytes.drop_last()), bytes.last())
    }
}

/// The draw for an agent and an intervention: the top 24 bits of the
/// SplitMix64 mix of an FNV-1a hash of the agent id, a zero byte and the
/// intervention's sampling key, started from the scenario seed. As a fraction
/// of 2^24 it is a deterministic point of the unit interval.
pub open spec fn draw_numerator(seed: u64, agent: Seq<u8>, key: Seq<u8>) -> u64 {
    splitmix64_spec(fnv_bytes(seed ^ 0x9e37_79b9_7f4a_7c15u64, agent + seq![0u8] + key)) >> 40u64
}

fn fnv_over(state: u64, bytes: &[u8]) -> (r: u64)
    ensures
        r == fnv_bytes(state, bytes@),
{
    let mut s = state;
    let mut i: usize = 0;
    while i < bytes.len()
        invariant
            i <= bytes@.len(),
            s == fnv_bytes(state, bytes@.take(i as int)),
        decreases bytes@.len() - i,
    {
        proof {
            assert(bytes@.take(i + 1).drop_last() =~= bytes@.take(i as int));
        }
        s = (s ^ (bytes[i] as u64)).wrapping_mul(0x1000_0000_01b3);
        i += 1;
    }
    proof {
        assert(bytes@.take(bytes@.len() as int) =~= bytes@);
    }
    s
}

proof fn lemma_fnv_concat(state: u64, a: Seq<u8>, b: Seq<u8>)
    ensures
        fnv_bytes(fnv_bytes(state, a), b) == fnv_bytes(state, a + b),
    decreases b.len(),
{
    if b.len() > 0 {
        lemma_fnv_concat(state, a, b.drop_last());
        assert((a + b).drop_last() =~= a + b.drop_last());
    } else {
        assert(a + b =~= a);
    }
}

/// The numerator of the agent's deterministic draw for an intervention, a
/// number below 2^24; the draw is this number divided by 2^24.
pub fn deterministic_draw_numerator(seed: u64, agent_id: &str, sampling_key: &str) -> (r: u32)
    ensures
        r as u64 == draw_numerator(seed, agent_id.spec_bytes(), sampling_key.spec_bytes()),
        r < 0x100_0000,
{
    let start = seed ^ 0x9e37_79b9_7f4a_7c15u64;
    let after_agent = fnv_over(start, agent_id.as_bytes());
    let separator: [u8; 1] = [0u8];
    let separated = fnv_over(after_agent, separator.as_slice());
    let state = fnv_over(separated, sampling_key.as_bytes());
    proof {
        let a = agent_id.spec_bytes();
        let k = sampling_key.spec_bytes();
        assert(separator@ =~= seq![0u8]);
        lemma_fnv_concat(start, a, seq![0u8]);
        lemma_fnv_concat(start, a + seq![0u8], k);
    }
    let mixed = splitmix64(state);
    let top = mixed >> 40;
    assert(top < 0x100_0000) by (bit_vector)
        requires
            top == mixed >> 40u64,
    ;
    top as u32
}

} // verus!
