use chiyoda_core::bundle::{AgentState, InformationDeliveryMetrics, InformationInterventionKind};
use chiyoda_core::runtime::{
    agent_state, check_run_options, deterministic_draw_numerator, records_frame, splitmix64,
    ConnectorWait, MotionPhase, RunError, RunOptions,
};

fn reference_splitmix64(mut value: u64) -> u64 {
    value = value.wrapping_add(0x9e37_79b9_7f4a_7c15);
    value = (value ^ (value >> 30)).wrapping_mul(0xbf58_476d_1ce4_e5b9);
    value = (value ^ (value >> 27)).wrapping_mul(0x94d0_49bb_1331_11eb);
    value ^ (value >> 31)
}

#[test]
fn splitmix64_matches_its_published_first_output() {
    // SplitMix64 seeded with 0 first yields 0xe220a8397b1dcdaf.
    assert_eq!(splitmix64(0), 0xe220_a839_7b1d_cdaf);
    assert_eq!(splitmix64(12345), reference_splitmix64(12345));
}

#[test]
fn the_draw_is_deterministic_and_below_two_to_the_24() {
    let a = deterministic_draw_numerator(7, "agent-1", "m1");
    let b = deterministic_draw_numerator(7, "agent-1", "m1");
    assert_eq!(a, b);
    assert!(a < 1 << 24);
    let mut state = 7u64 ^ 0x9e37_79b9_7f4a_7c15;
    for byte in "agent-1".bytes().chain(std::iter::once(0)).chain("m1".bytes()) {
        state ^= u64::from(byte);
        state = state.wrapping_mul(0x1000_0000_01b3);
    }
    assert_eq!(u64::from(a), reference_splitmix64(state) >> 40);
    assert_ne!(a, deterministic_draw_numerator(8, "agent-1", "m1"));
}

#[test]
fn run_options_need_a_positive_trace_interval() {
    assert_eq!(RunOptions::default().trace_every_steps, 10);
    assert!(check_run_options(&RunOptions::default()).is_ok());
    let error = check_run_options(&RunOptions { trace_every_steps: 0 }).expect_err("zero");
    assert_eq!(error.to_text(), "invalid run options: trace_every_steps must be greater than zero");
    let no_route = RunError::NoRoute { agent_group: "g".to_owned(), destination: "x".to_owned() };
    assert_eq!(no_route.to_text(), "agent group `g` has no route to `x`");
}

#[test]
fn frames_are_recorded_at_the_interval_and_at_the_end() {
    assert!(records_frame(10, 10, 25));
    assert!(!records_frame(11, 10, 25));
    assert!(records_frame(25, 10, 25));
}

#[test]
fn a_route_wait_takes_precedence_over_a_connector_wait() {
    assert_eq!(
        agent_state(MotionPhase::OnSurface, true, true, Some(ConnectorWait::Lift)),
        AgentState::WaitingForRoute
    );
    assert_eq!(agent_state(MotionPhase::OnSurface, false, false, Some(ConnectorWait::Capacity)), AgentState::WaitingForConnector);
    assert_eq!(agent_state(MotionPhase::OnSurface, false, false, None), AgentState::Moving);
    assert_eq!(agent_state(MotionPhase::Transit, true, false, None), AgentState::InTransit);
    assert_eq!(AgentState::WaitingForGate.name(), "waiting_for_gate");
}

#[test]
fn delivery_counts_received_and_accepted_agents() {
    let mut metrics = InformationDeliveryMetrics::new(InformationInterventionKind::Message);
    metrics.record(true);
    metrics.record(false);
    assert_eq!((metrics.received_agents, metrics.accepted_agents), (2, 1));
}

#[test]
fn invalid_scenario_error_lists_each_problem() {
    let error = RunError::InvalidScenario(vec!["unknown surface `a`".to_owned(), "no exits".to_owned()]);
    assert_eq!(
        error.to_text(),
        "scenario validation failed: unknown surface `a`; no exits"
    );
    assert_eq!(
        RunError::InvalidScenario(Vec::new()).to_text(),
        "scenario validation failed: "
    );
}
