//! The declarations of the line-oriented scenario language and the grammar
//! that relates a line's tokens to the declaration it denotes.
//!
//! Numbers stay in their source spelling: a [`Quantity`] holds the literal that
//! `f64::from_str` accepts, so that converting it to a floating-point value
//! cannot fail.

use vstd::prelude::*;
use crate::literal::{bool_literal, is_float_literal, unsigned_literal};
use crate::model::{ConnectorKind, InformationSource, Proposition};

verus! {

/// A numeric source literal. `number` is the literal before its unit;
/// `milli` marks a duration written in milliseconds.
#[derive(Debug, Clone)]
pub struct Quantity {
    pub number: String,
    pub milli: bool,
}

/// A point written as three lengths `(x, y, z)`.
#[derive(Debug, Clone)]
pub struct PointSyntax {
    pub x: Quantity,
    pub y: Quantity,
    pub z: Quantity,
}

#[derive(Debug, Clone)]
pub struct SurfaceDecl {
    pub id: String,
    pub origin: PointSyntax,
    pub width: Quantity,
    pub depth: Quantity,
}

#[derive(Debug, Clone)]
pub struct ObstacleDecl {
    pub id: String,
    pub surface: String,
    pub at: PointSyntax,
    pub width: Quantity,
    pub depth: Quantity,
}

#[derive(Debug, Clone)]
pub struct WaypointDecl {
    pub id: String,
    pub surface: String,
    pub at: PointSyntax,
    /// Absent when the declaration has no `dwell` clause (no dwell time).
    pub dwell: Option<Quantity>,
}

#[derive(Debug, Clone)]
pub struct ExitDecl {
    pub id: String,
    pub surface: String,
    pub at: PointSyntax,
    pub width: Quantity,
    pub capacity: Option<Quantity>,
}

/// The part every connector declaration shares.
#[derive(Debug, Clone)]
pub struct ConnectorEnds {
    pub id: String,
    pub from_surface: String,
    pub from: PointSyntax,
    pub to_surface: String,
    pub to: PointSyntax,
}

#[derive(Debug, Clone)]
pub enum ConnectorDecl {
    Stair {
        ends: ConnectorEnds,
        width: Quantity,
        capacity: Option<Quantity>,
        clearance: Option<Quantity>,
    },
    Ramp {
        ends: ConnectorEnds,
        width: Quantity,
        capacity: Option<Quantity>,
        clearance: Option<Quantity>,
    },
    Escalator {
        ends: ConnectorEnds,
        width: Quantity,
        belt_speed: Quantity,
        capacity: Option<Quantity>,
        clearance: Option<Quantity>,
    },
    Lift {
        ends: ConnectorEnds,
        cabin_width: Quantity,
        cabin_depth: Quantity,
        capacity: u32,
        cycle: Quantity,
        clearance: Option<Quantity>,
    },
}

/// The kind of a connector declaration.
pub open spec fn connector_decl_kind(c: ConnectorDecl) -> ConnectorKind {
    match c {
        ConnectorDecl::Stair { .. } => ConnectorKind::Stair,
        ConnectorDecl::Ramp { .. } => ConnectorKind::Ramp,
        ConnectorDecl::Escalator { .. } => ConnectorKind::Escalator,
        ConnectorDecl::Lift { .. } => ConnectorKind::Lift,
    }
}

/// The two ends of a connector declaration.
pub open spec fn connector_decl_ends(c: ConnectorDecl) -> ConnectorEnds {
    match c {
        ConnectorDecl::Stair { ends, .. } => ends,
        ConnectorDecl::Ramp { ends, .. } => ends,
        ConnectorDecl::Escalator { ends, .. } => ends,
        ConnectorDecl::Lift { ends, .. } => ends,
    }
}

impl ConnectorDecl {
    pub fn kind(&self) -> (r: ConnectorKind)
        ensures
            r == connector_decl_kind(*self),
    {
        match self {
            ConnectorDecl::Stair { .. } => ConnectorKind::Stair,
            ConnectorDecl::Ramp { .. } => ConnectorKind::Ramp,
            ConnectorDecl::Escalator { .. } => ConnectorKind::Escalator,
            ConnectorDecl::Lift { .. } => ConnectorKind::Lift,
        }
    }

    pub fn is_lift(&self) -> (r: bool)
        ensures
            r == (*self is Lift),
    {
        match self {
            ConnectorDecl::Lift { .. } => true,
            _ => false,
        }
    }

    fn ends(&self) -> (r: &ConnectorEnds)
        ensures
            *r == connector_decl_ends(*self),
    {
        match self {
            ConnectorDecl::Stair { ends, .. } => ends,
            ConnectorDecl::Ramp { ends, .. } => ends,
            ConnectorDecl::Escalator { ends, .. } => ends,
            ConnectorDecl::Lift { ends, .. } => ends,
        }
    }

    pub fn id(&self) -> (r: &str)
        ensures
            r@ == connector_decl_ends(*self).id@,
    {
        self.ends().id.as_str()
    }

    pub fn from_surface(&self) -> (r: &str)
        ensures
            r@ == connector_decl_ends(*self).from_surface@,
    {
        self.ends().from_surface.as_str()
    }

    pub fn to_surface(&self) -> (r: &str)
        ensures
            r@ == connector_decl_ends(*self).to_surface@,
    {
        self.ends().to_surface.as_str()
    }

    /// A lift's cabin capacity in agents; other connectors have none.
    pub fn capacity(&self) -> (r: Option<u32>)
        ensures
            r == match *self {
                ConnectorDecl::Lift { capacity, .. } => Some(capacity),
                _ => None::<u32>,
            },
    {
        match self {
            ConnectorDecl::Lift { capacity, .. } => Some(*capacity),
            _ => None,
        }
    }
}

impl AgentsDecl {
    /// The exits the group may leave by: its destination, then its
    /// alternatives in order.
    pub fn exit_candidates(&self) -> (r: Vec<String>)
        ensures
            crate::lexer::string_views(r@) == seq![self.destination@] + crate::lexer::string_views(
                self.alternative_destinations@,
            ),
    {
        let mut out: Vec<String> = Vec::new();
        out.push(crate::text::owned(self.destination.as_str()));
        let mut i: usize = 0;
        while i < self.alternative_destinations.len()
            invariant
                i <= self.alternative_destinations@.len(),
                crate::lexer::string_views(out@) =~= seq![self.destination@] + crate::lexer::string_views(
                    self.alternative_destinations@.take(i as int),
                ),
            decreases self.alternative_destinations@.len() - i,
        {
            let ghost before = out@;
            out.push(crate::text::owned(self.alternative_destinations[i].as_str()));
            proof {
                assert(self.alternative_destinations@.take(i + 1) =~= self.alternative_destinations@.take(
                    i as int,
                ).push(self.alternative_destinations@[i as int]));
                assert(crate::lexer::string_views(out@) =~= crate::lexer::string_views(before).push(
                    self.alternative_destinations@[i as int]@,
                ));
            }
            i += 1;
        }
        proof {
            assert(self.alternative_destinations@.take(i as int) =~= self.alternative_destinations@);
        }
        out
    }

    /// Whether the group may use `connector`: its kind is not excluded.
    pub fn allows_connector(&self, connector: &ConnectorDecl) -> (r: bool)
        ensures
            r == !self.excluded_connector_kinds@.contains(connector_decl_kind(*connector)),
    {
        let kind = connector.kind();
        let mut i: usize = 0;
        while i < self.excluded_connector_kinds.len()
            invariant
                i <= self.excluded_connector_kinds@.len(),
                kind == connector_decl_kind(*connector),
                forall|j: int| 0 <= j < i ==> self.excluded_connector_kinds@[j] != kind,
            decreases self.excluded_connector_kinds@.len() - i,
        {
            if self.excluded_connector_kinds[i] == kind {
                assert(self.excluded_connector_kinds@[i as int] == kind);
                assert(self.excluded_connector_kinds@.contains(kind));
                return false;
            }
            i += 1;
        }
        true
    }
}

/// A timed open/closed change of a connector, exit or gate.
#[derive(Debug, Clone)]
pub struct StateChangeDecl {
    pub id: String,
    pub subject: String,
    pub open: bool,
    pub at: Quantity,
}

/// A timed capacity change of a connector, exit or gate.
#[derive(Debug, Clone)]
pub struct CapacityChangeDecl {
    pub id: String,
    pub subject: String,
    pub capacity: Quantity,
    pub at: Quantity,
}

#[derive(Debug, Clone)]
pub struct GateDecl {
    pub id: String,
    pub surface: String,
    pub at: PointSyntax,
    pub width: Quantity,
    pub service_rate: Quantity,
    pub destination: String,
}

/// Where an agent group's walking speed comes from: a speed on the line, or
/// a walking profile named by its id.
#[derive(Debug, Clone)]
pub enum AgentSpeed {
    Given(Quantity),
    Profile(String),
}

/// A source-locked preferred walking speed of the horizontal free-walking
/// kind, with the digests of the artifacts it was taken from.
#[derive(Debug, Clone)]
pub struct WalkingProfileDecl {
    pub id: String,
    pub speed: Quantity,
    pub catalog_sha256: String,
    pub calibration_profile_sha256: String,
    pub held_out_evaluation_sha256: String,
}

#[derive(Debug, Clone)]
pub struct AgentsDecl {
    pub id: String,
    pub count: u32,
    pub surface: String,
    pub at: PointSyntax,
    pub destination: String,
    pub alternative_destinations: Vec<String>,
    pub speed: AgentSpeed,
    pub radius: Quantity,
    pub height: Quantity,
    /// Absent when there is no `release` clause (release at time zero).
    pub release_at: Option<Quantity>,
    pub release_interval: Option<Quantity>,
    pub release_batch_size: Option<u32>,
    pub via: Vec<String>,
    /// Without repetition, in the order stair, ramp, escalator, lift.
    pub excluded_connector_kinds: Vec<ConnectorKind>,
}

#[derive(Debug, Clone)]
pub struct MessageDecl {
    pub id: String,
    pub source: InformationSource,
    pub surface: String,
    pub origin: PointSyntax,
    pub claim: Proposition,
    pub truthful: bool,
    pub at: Quantity,
    pub reach: Quantity,
    pub trust: Quantity,
    pub sampling_key: Option<String>,
}

#[derive(Debug, Clone)]
pub struct CountermeasureDecl {
    pub id: String,
    pub corrects: String,
    pub source: InformationSource,
    pub surface: String,
    pub origin: PointSyntax,
    pub at: Quantity,
    pub reach: Quantity,
    pub trust: Quantity,
    pub sampling_key: Option<String>,
}

/// One source declaration.
#[derive(Debug, Clone)]
pub enum Declaration {
    Scenario(String),
    Seed(u64),
    Duration(Quantity),
    Timestep(Quantity),
    Surface(SurfaceDecl),
    Obstacle(ObstacleDecl),
    Waypoint(WaypointDecl),
    Exit(ExitDecl),
    Connector(ConnectorDecl),
    ConnectorState(StateChangeDecl),
    ExitState(StateChangeDecl),
    ConnectorCapacityState(CapacityChangeDecl),
    ExitCapacityState(CapacityChangeDecl),
    Gate(GateDecl),
    GateState(StateChangeDecl),
    GateCapacityState(CapacityChangeDecl),
    Agents(AgentsDecl),
    Message(MessageDecl),
    Countermeasure(CountermeasureDecl),
    WalkingProfile(WalkingProfileDecl),
}

// ---- token-level predicates ----
pub open spec fn word_at(tv: Seq<Seq<char>>, i: int, w: Seq<char>) -> bool {
    0 <= i < tv.len() && tv[i] == w
}

pub open spec fn ends_with(t: Seq<char>, suffix: Seq<char>) -> bool {
    t.len() >= suffix.len() && t.skip(t.len() - suffix.len()) == suffix
}

pub open spec fn without_suffix(t: Seq<char>, suffix: Seq<char>) -> Seq<char> {
    t.take(t.len() - suffix.len())
}

pub open spec fn meters() -> Seq<char> {
    seq!['m']
}

pub open spec fn seconds() -> Seq<char> {
    seq!['s']
}

pub open spec fn milliseconds() -> Seq<char> {
    seq!['m', 's']
}

pub open spec fn meters_per_second() -> Seq<char> {
    seq!['m', '/', 's']
}

pub open spec fn per_second() -> Seq<char> {
    seq!['/', 's']
}

/// The token is a number followed by `suffix`.
pub open spec fn unit_ok(t: Seq<char>, suffix: Seq<char>) -> bool {
    ends_with(t, suffix) && is_float_literal(without_suffix(t, suffix))
}

/// `q` is the number of a token written with unit `suffix`.
pub open spec fn unit_is(q: Quantity, t: Seq<char>, suffix: Seq<char>) -> bool {
    unit_ok(t, suffix) && q.number@ == without_suffix(t, suffix) && !q.milli
}

pub open spec fn length_ok(t: Seq<char>) -> bool {
    unit_ok(t, meters())
}

pub open spec fn length_is(q: Quantity, t: Seq<char>) -> bool {
    unit_is(q, t, meters())
}

pub open spec fn speed_ok(t: Seq<char>) -> bool {
    unit_ok(t, meters_per_second())
}

pub open spec fn speed_is(q: Quantity, t: Seq<char>) -> bool {
    unit_is(q, t, meters_per_second())
}

pub open spec fn rate_ok(t: Seq<char>) -> bool {
    unit_ok(t, per_second())
}

pub open spec fn rate_is(q: Quantity, t: Seq<char>) -> bool {
    unit_is(q, t, per_second())
}

/// A duration: a number of `ms`, or else a number of `s`.
pub open spec fn duration_ok(t: Seq<char>) -> bool {
    if ends_with(t, milliseconds()) {
        is_float_literal(without_suffix(t, milliseconds()))
    } else {
        unit_ok(t, seconds())
    }
}

pub open spec fn duration_is(q: Quantity, t: Seq<char>) -> bool {
    if ends_with(t, milliseconds()) {
        is_float_literal(without_suffix(t, milliseconds())) && q.number@ == without_suffix(
            t,
            milliseconds(),
        ) && q.milli
    } else {
        unit_is(q, t, seconds())
    }
}

/// A unitless number.
pub open spec fn plain_is(q: Quantity, t: Seq<char>) -> bool {
    is_float_literal(t) && q.number@ == t && !q.milli
}

pub open spec fn u32_ok(t: Seq<char>) -> bool {
    unsigned_literal(t) matches Some(n) && n <= u32::MAX
}

pub open spec fn u64_ok(t: Seq<char>) -> bool {
    unsigned_literal(t) matches Some(n) && n <= u64::MAX
}

pub open spec fn point_ok(tv: Seq<Seq<char>>, i: int) -> bool {
    0 <= i && i + 2 < tv.len() && length_ok(tv[i]) && length_ok(tv[i + 1]) && length_ok(tv[i + 2])
}

pub open spec fn point_is(p: PointSyntax, tv: Seq<Seq<char>>, i: int) -> bool {
    0 <= i && i + 2 < tv.len() && length_is(p.x, tv[i]) && length_is(p.y, tv[i + 1])
        && length_is(p.z, tv[i + 2])
}

pub open spec fn availability(t: Seq<char>) -> Option<bool> {
    if t == "open"@ {
        Some(true)
    } else if t == "closed"@ {
        Some(false)
    } else {
        None
    }
}

pub open spec fn connector_kind_of(t: Seq<char>) -> Option<ConnectorKind> {
    if t == "stair"@ {
        Some(ConnectorKind::Stair)
    } else if t == "ramp"@ {
        Some(ConnectorKind::Ramp)
    } else if t == "escalator"@ {
        Some(ConnectorKind::Escalator)
    } else if t == "lift"@ {
        Some(ConnectorKind::Lift)
    } else {
        None
    }
}

pub open spec fn information_source_of(t: Seq<char>) -> Option<InformationSource> {
    if t == "peer"@ {
        Some(InformationSource::Peer)
    } else if t == "official"@ {
        Some(InformationSource::Official)
    } else if t == "signage"@ {
        Some(InformationSource::Signage)
    } else if t == "staff"@ {
        Some(InformationSource::Staff)
    } else {
        None
    }
}

/// A claim `KIND SUBJECT STATE` about a connector or an exit.
pub open spec fn claim_ok(kind: Seq<char>, state: Seq<char>) -> bool {
    availability(state) is Some && (kind == "connector"@ || kind == "exit"@)
}

pub open spec fn claim_is(p: Proposition, kind: Seq<char>, subject: Seq<char>, state: Seq<char>) -> bool {
    claim_ok(kind, state) && match p {
        Proposition::ConnectorAvailability { connector, open } => kind == "connector"@
            && connector@ == subject && Some(open) == availability(state),
        Proposition::ExitAvailability { exit, open } => kind == "exit"@ && exit@ == subject
            && Some(open) == availability(state),
        Proposition::GateAvailability { .. } => false,
    }
}

pub open spec fn quantity_option_is(
    q: Option<Quantity>,
    index: Option<int>,
    tv: Seq<Seq<char>>,
    rel: spec_fn(Quantity, Seq<char>) -> bool,
) -> bool {
    match (q, index) {
        (None, None) => true,
        (Some(q), Some(k)) => 0 <= k < tv.len() && rel(q, tv[k]),
        _ => false,
    }
}

// ---- optional clause groups ----
/// `capacity RATE` and `clearance LENGTH` clauses, each at most once, from
/// `idx` to the end. The result holds the token index of each value.
pub open spec fn connector_options_from(
    tv: Seq<Seq<char>>,
    idx: int,
    capacity: Option<int>,
    clearance: Option<int>,
) -> Option<(Option<int>, Option<int>)>
    decreases tv.len() - idx,
{
    if idx < 0 || idx >= tv.len() {
        Some((capacity, clearance))
    } else if idx + 1 >= tv.len() {
        None
    } else if tv[idx] == "capacity"@ {
        if capacity is None && rate_ok(tv[idx + 1]) {
            connector_options_from(tv, idx + 2, Some(idx + 1), clearance)
        } else {
            None
        }
    } else if tv[idx] == "clearance"@ {
        if clearance is None && length_ok(tv[idx + 1]) {
            connector_options_from(tv, idx + 2, capacity, Some(idx + 1))
        } else {
            None
        }
    } else {
        None
    }
}

pub open spec fn connector_options(tv: Seq<Seq<char>>, start: int) -> Option<(Option<int>, Option<int>)> {
    connector_options_from(tv, start, None, None)
}

/// A final `clearance LENGTH` clause at `start`, if any.
pub open spec fn final_clearance(tv: Seq<Seq<char>>, start: int) -> Option<Option<int>> {
    if tv.len() == start {
        Some(None)
    } else if tv.len() == start + 2 && tv[start] == "clearance"@ && length_ok(tv[start + 1]) {
        Some(Some(start + 1))
    } else {
        None
    }
}

/// A final `capacity RATE` clause of an exit, if any.
pub open spec fn final_exit_capacity(tv: Seq<Seq<char>>) -> Option<Option<int>> {
    if tv.len() == 10 {
        Some(None)
    } else if tv.len() == 12 && tv[10] == "capacity"@ && rate_ok(tv[11]) {
        Some(Some(11))
    } else {
        None
    }
}

/// A final `sample KEY` clause after `base` tokens, if any.
pub open spec fn sampling_key(tv: Seq<Seq<char>>, base: int) -> Option<Option<int>> {
    if tv.len() == base {
        Some(None)
    } else if tv.len() == base + 2 && tv[base] == "sample"@ {
        Some(Some(base + 1))
    } else {
        None
    }
}

pub open spec fn string_option_is(s: Option<String>, index: Option<int>, tv: Seq<Seq<char>>) -> bool {
    match (s, index) {
        (None, None) => true,
        (Some(s), Some(k)) => 0 <= k < tv.len() && s@ == tv[k],
        _ => false,
    }
}

/// The token indices of the agent options: release time, interval, batch
/// size, waypoints, alternative exits, and the excluded connector kinds.
pub type AgentOptionIndices = (Option<int>, Option<int>, Option<int>, Seq<int>, Seq<int>, Seq<ConnectorKind>);

pub open spec fn agent_options_from(
    tv: Seq<Seq<char>>,
    primary: Seq<char>,
    idx: int,
    st: AgentOptionIndices,
) -> Option<AgentOptionIndices>
    decreases tv.len() - idx,
{
    if idx < 0 || idx >= tv.len() {
        Some(st)
    } else {
        let t = tv[idx];
        if t == "release"@ && st.0 is None {
            if idx + 1 >= tv.len() || !duration_ok(tv[idx + 1]) {
                None
            } else if idx + 2 < tv.len() && tv[idx + 2] == "every"@ {
                if idx + 3 >= tv.len() || !duration_ok(tv[idx + 3]) {
                    None
                } else if idx + 4 < tv.len() && tv[idx + 4] == "batch"@ {
                    if idx + 5 >= tv.len() || !u32_ok(tv[idx + 5]) {
                        None
                    } else {
                        agent_options_from(
                            tv,
                            primary,
                            idx + 6,
                            (Some(idx + 1), Some(idx + 3), Some(idx + 5), st.3, st.4, st.5),
                        )
                    }
                } else {
                    agent_options_from(
                        tv,
                        primary,
                        idx + 4,
                        (Some(idx + 1), Some(idx + 3), st.2, st.3, st.4, st.5),
                    )
                }
            } else {
                agent_options_from(tv, primary, idx + 2, (Some(idx + 1), st.1, st.2, st.3, st.4, st.5))
            }
        } else if t == "via"@ {
            if idx + 1 >= tv.len() {
                None
            } else {
                agent_options_from(tv, primary, idx + 2, (st.0, st.1, st.2, st.3.push(idx + 1), st.4, st.5))
            }
        } else if t == "alternative"@ {
            if idx + 1 >= tv.len() {
                None
            } else if tv[idx + 1] == primary || exists|j: int|
                0 <= j < st.4.len() && 0 <= st.4[j] < tv.len() && #[trigger] tv[st.4[j]] == tv[idx + 1] {
                None
            } else {
                agent_options_from(tv, primary, idx + 2, (st.0, st.1, st.2, st.3, st.4.push(idx + 1), st.5))
            }
        } else if t == "exclude"@ {
            if idx + 1 >= tv.len() {
                None
            } else {
                match connector_kind_of(tv[idx + 1]) {
                    None => None,
                    Some(k) => if st.5.contains(k) {
                        None
                    } else {
                        agent_options_from(tv, primary, idx + 2, (st.0, st.1, st.2, st.3, st.4, st.5.push(k)))
                    },
                }
            }
        } else {
            None
        }
    }
}

/// One when an `agents` line takes its speed from a walking profile
/// (`speed profile NAME`, a token longer than `speed NUMBERm/s`), else zero.
pub open spec fn speed_shift(tv: Seq<Seq<char>>) -> int {
    if tv.len() > 13 && tv[13] == "profile"@ {
        1
    } else {
        0
    }
}

pub open spec fn agent_options(tv: Seq<Seq<char>>) -> Option<AgentOptionIndices> {
    agent_options_from(
        tv,
        tv[11],
        18 + speed_shift(tv),
        (None, None, None, Seq::empty(), Seq::empty(), Seq::empty()),
    )
}

/// The excluded kinds without repetition, in the order stair, ramp, escalator, lift.
pub open spec fn kinds_in_order(excluded: Seq<ConnectorKind>) -> Seq<ConnectorKind> {
    crate::text::only_if(excluded.contains(ConnectorKind::Stair), ConnectorKind::Stair)
        + crate::text::only_if(excluded.contains(ConnectorKind::Ramp), ConnectorKind::Ramp)
        + crate::text::only_if(excluded.contains(ConnectorKind::Escalator), ConnectorKind::Escalator)
        + crate::text::only_if(excluded.contains(ConnectorKind::Lift), ConnectorKind::Lift)
}

pub open spec fn strings_at(v: Seq<String>, indices: Seq<int>, tv: Seq<Seq<char>>) -> bool {
    v.len() == indices.len() && forall|j: int|
        0 <= j < v.len() ==> 0 <= #[trigger] indices[j] < tv.len() && v[j]@ == tv[indices[j]]
}

// ---- declarations ----
pub open spec fn ends_ok(tv: Seq<Seq<char>>) -> bool {
    word_at(tv, 2, "from"@) && word_at(tv, 4, "at"@) && word_at(tv, 8, "to"@) && word_at(tv, 10, "at"@)
        && point_ok(tv, 5) && point_ok(tv, 11)
}

pub open spec fn ends_is(e: ConnectorEnds, tv: Seq<Seq<char>>) -> bool {
    tv.len() > 11 && e.id@ == tv[1] && e.from_surface@ == tv[3] && point_is(e.from, tv, 5)
        && e.to_surface@ == tv[9] && point_is(e.to, tv, 11)
}

pub open spec fn surface_ok(tv: Seq<Seq<char>>) -> bool {
    tv.len() == 9 && word_at(tv, 2, "at"@) && word_at(tv, 6, "size"@) && point_ok(tv, 3) && length_ok(
        tv[7],
    ) && length_ok(tv[8])
}

pub open spec fn obstacle_ok(tv: Seq<Seq<char>>) -> bool {
    tv.len() == 11 && word_at(tv, 2, "on"@) && word_at(tv, 4, "at"@) && word_at(tv, 8, "size"@)
        && point_ok(tv, 5) && length_ok(tv[9]) && length_ok(tv[10])
}

pub open spec fn waypoint_ok(tv: Seq<Seq<char>>) -> bool {
    tv.len() >= 8 && word_at(tv, 2, "on"@) && word_at(tv, 4, "at"@) && point_ok(tv, 5) && (tv.len()
        == 8 || (tv.len() == 10 && tv[8] == "dwell"@ && duration_ok(tv[9])))
}

pub open spec fn exit_ok(tv: Seq<Seq<char>>) -> bool {
    tv.len() >= 10 && word_at(tv, 2, "on"@) && word_at(tv, 4, "at"@) && word_at(tv, 8, "width"@)
        && final_exit_capacity(tv) is Some && point_ok(tv, 5) && length_ok(tv[9])
}

/// A stair or a ramp.
pub open spec fn walkway_ok(tv: Seq<Seq<char>>) -> bool {
    tv.len() >= 16 && ends_ok(tv) && word_at(tv, 14, "width"@) && connector_options(tv, 16) is Some
        && length_ok(tv[15])
}

pub open spec fn escalator_ok(tv: Seq<Seq<char>>) -> bool {
    tv.len() >= 18 && ends_ok(tv) && word_at(tv, 14, "width"@) && word_at(tv, 16, "belt"@)
        && connector_options(tv, 18) is Some && length_ok(tv[15]) && speed_ok(tv[17])
}

pub open spec fn lift_ok(tv: Seq<Seq<char>>) -> bool {
    tv.len() >= 21 && ends_ok(tv) && word_at(tv, 14, "cabin"@) && word_at(tv, 17, "capacity"@)
        && word_at(tv, 19, "cycle"@) && length_ok(tv[15]) && length_ok(tv[16]) && u32_ok(tv[18])
        && duration_ok(tv[20]) && final_clearance(tv, 21) is Some
}

/// `KEYWORD ID SUBJECT_KIND SUBJECT open|closed time DURATION`.
pub open spec fn state_change_ok(tv: Seq<Seq<char>>, subject_kind: Seq<char>) -> bool {
    tv.len() == 7 && word_at(tv, 2, subject_kind) && word_at(tv, 5, "time"@) && availability(tv[4]) is Some
        && duration_ok(tv[6])
}

/// `KEYWORD ID SUBJECT_KIND SUBJECT capacity RATE time DURATION`.
pub open spec fn capacity_change_ok(tv: Seq<Seq<char>>, subject_kind: Seq<char>) -> bool {
    tv.len() == 8 && word_at(tv, 2, subject_kind) && word_at(tv, 4, "capacity"@) && word_at(
        tv,
        6,
        "time"@,
    ) && rate_ok(tv[5]) && duration_ok(tv[7])
}

pub open spec fn gate_ok(tv: Seq<Seq<char>>) -> bool {
    tv.len() == 14 && word_at(tv, 2, "on"@) && word_at(tv, 4, "at"@) && word_at(tv, 8, "width"@)
        && word_at(tv, 10, "capacity"@) && word_at(tv, 12, "to"@) && point_ok(tv, 5) && length_ok(tv[9])
        && rate_ok(tv[11])
}

pub open spec fn agents_ok(tv: Seq<Seq<char>>) -> bool {
    let s = speed_shift(tv);
    &&& tv.len() >= 18 + s
    &&& word_at(tv, 2, "count"@) && word_at(tv, 4, "on"@) && word_at(tv, 6, "at"@)
    &&& word_at(tv, 10, "to"@) && word_at(tv, 12, "speed"@) && word_at(tv, 14 + s, "radius"@)
    &&& word_at(tv, 16 + s, "height"@)
    &&& agent_options(tv) is Some
    &&& u32_ok(tv[3]) && point_ok(tv, 7)
    &&& (s == 1 || speed_ok(tv[13]))
    &&& length_ok(tv[15 + s]) && length_ok(tv[17 + s])
}

/// `walking-profile ID horizontal-free-walking speed SPEED catalog-sha256 H
/// calibration-profile-sha256 H held-out-evaluation-sha256 H`.
pub open spec fn walking_profile_ok(tv: Seq<Seq<char>>) -> bool {
    &&& tv.len() == 11
    &&& word_at(tv, 2, "horizontal-free-walking"@) && word_at(tv, 3, "speed"@)
    &&& word_at(tv, 5, "catalog-sha256"@) && word_at(tv, 7, "calibration-profile-sha256"@)
    &&& word_at(tv, 9, "held-out-evaluation-sha256"@)
    &&& speed_ok(tv[4])
}

pub open spec fn message_ok(tv: Seq<Seq<char>>) -> bool {
    &&& tv.len() >= 22
    &&& sampling_key(tv, 22) is Some
    &&& word_at(tv, 2, "source"@) && word_at(tv, 4, "on"@) && word_at(tv, 6, "at"@)
    &&& word_at(tv, 10, "claim"@) && word_at(tv, 14, "truth"@) && word_at(tv, 16, "time"@)
    &&& word_at(tv, 18, "reach"@) && word_at(tv, 20, "trust"@)
    &&& information_source_of(tv[3]) is Some
    &&& point_ok(tv, 7)
    &&& claim_ok(tv[11], tv[13])
    &&& bool_literal(tv[15]) is Some
    &&& duration_ok(tv[17]) && length_ok(tv[19]) && is_float_literal(tv[21])
}

pub open spec fn countermeasure_ok(tv: Seq<Seq<char>>) -> bool {
    &&& tv.len() >= 18
    &&& sampling_key(tv, 18) is Some
    &&& word_at(tv, 2, "corrects"@) && word_at(tv, 4, "source"@) && word_at(tv, 6, "on"@)
    &&& word_at(tv, 8, "at"@) && word_at(tv, 12, "time"@) && word_at(tv, 14, "reach"@)
    &&& word_at(tv, 16, "trust"@)
    &&& information_source_of(tv[5]) matches Some(s) && s != InformationSource::Peer
    &&& point_ok(tv, 9)
    &&& duration_ok(tv[13]) && length_ok(tv[15]) && is_float_literal(tv[17])
}

/// Whether the tokens of a line form a valid declaration, given which of the
/// single `scenario`, `seed`, `duration` and `timestep` declarations came before.
pub open spec fn declaration_accepted(
    tv: Seq<Seq<char>>,
    have_name: bool,
    have_seed: bool,
    have_duration: bool,
    have_timestep: bool,
) -> bool {
    let k = tv[0];
    &&& tv.len() > 0
    &&& if k == "scenario"@ {
        !have_name && tv.len() == 2
    } else if k == "seed"@ {
        !have_seed && tv.len() == 2 && u64_ok(tv[1])
    } else if k == "duration"@ {
        !have_duration && tv.len() == 2 && duration_ok(tv[1])
    } else if k == "timestep"@ {
        !have_timestep && tv.len() == 2 && duration_ok(tv[1])
    } else if k == "surface"@ {
        surface_ok(tv)
    } else if k == "obstacle"@ {
        obstacle_ok(tv)
    } else if k == "waypoint"@ {
        waypoint_ok(tv)
    } else if k == "exit"@ {
        exit_ok(tv)
    } else if k == "stair"@ {
        walkway_ok(tv)
    } else if k == "ramp"@ {
        walkway_ok(tv)
    } else if k == "escalator"@ {
        escalator_ok(tv)
    } else if k == "lift"@ {
        lift_ok(tv)
    } else if k == "connector-state"@ {
        state_change_ok(tv, "connector"@)
    } else if k == "exit-state"@ {
        state_change_ok(tv, "exit"@)
    } else if k == "connector-capacity-state"@ {
        capacity_change_ok(tv, "connector"@)
    } else if k == "exit-capacity-state"@ {
        capacity_change_ok(tv, "exit"@)
    } else if k == "gate"@ {
        gate_ok(tv)
    } else if k == "gate-state"@ {
        state_change_ok(tv, "gate"@)
    } else if k == "gate-capacity-state"@ {
        capacity_change_ok(tv, "gate"@)
    } else if k == "agents"@ {
        agents_ok(tv)
    } else if k == "message"@ {
        message_ok(tv)
    } else if k == "countermeasure"@ {
        countermeasure_ok(tv)
    } else if k == "walking-profile"@ {
        walking_profile_ok(tv)
    } else {
        false
    }
}

pub open spec fn state_change_is(d: StateChangeDecl, tv: Seq<Seq<char>>) -> bool {
    tv.len() == 7 && d.id@ == tv[1] && d.subject@ == tv[3] && Some(d.open) == availability(tv[4])
        && duration_is(d.at, tv[6])
}

pub open spec fn capacity_change_is(d: CapacityChangeDecl, tv: Seq<Seq<char>>) -> bool {
    tv.len() == 8 && d.id@ == tv[1] && d.subject@ == tv[3] && rate_is(d.capacity, tv[5])
        && duration_is(d.at, tv[7])
}

pub open spec fn connector_is(c: ConnectorDecl, tv: Seq<Seq<char>>) -> bool {
    match c {
        ConnectorDecl::Stair { ends, width, capacity, clearance } => tv[0] == "stair"@ && ends_is(ends, tv)
            && tv.len() >= 16 && length_is(width, tv[15]) && (connector_options(tv, 16) matches Some(o)
            && quantity_option_is(capacity, o.0, tv, |q: Quantity, t: Seq<char>| rate_is(q, t))
            && quantity_option_is(clearance, o.1, tv, |q: Quantity, t: Seq<char>| length_is(q, t))),
        ConnectorDecl::Ramp { ends, width, capacity, clearance } => tv[0] == "ramp"@ && ends_is(ends, tv)
            && tv.len() >= 16 && length_is(width, tv[15]) && (connector_options(tv, 16) matches Some(o)
            && quantity_option_is(capacity, o.0, tv, |q: Quantity, t: Seq<char>| rate_is(q, t))
            && quantity_option_is(clearance, o.1, tv, |q: Quantity, t: Seq<char>| length_is(q, t))),
        ConnectorDecl::Escalator { ends, width, belt_speed, capacity, clearance } => tv[0]
            == "escalator"@ && ends_is(ends, tv) && tv.len() >= 18 && length_is(width, tv[15])
            && speed_is(belt_speed, tv[17]) && (connector_options(tv, 18) matches Some(o)
            && quantity_option_is(capacity, o.0, tv, |q: Quantity, t: Seq<char>| rate_is(q, t))
            && quantity_option_is(clearance, o.1, tv, |q: Quantity, t: Seq<char>| length_is(q, t))),
        ConnectorDecl::Lift { ends, cabin_width, cabin_depth, capacity, cycle, clearance } => tv[0]
            == "lift"@ && ends_is(ends, tv) && tv.len() >= 21 && length_is(cabin_width, tv[15])
            && length_is(cabin_depth, tv[16]) && unsigned_literal(tv[18]) == Some(capacity as nat)
            && duration_is(cycle, tv[20]) && (final_clearance(tv, 21) matches Some(o)
            && quantity_option_is(clearance, o, tv, |q: Quantity, t: Seq<char>| length_is(q, t))),
    }
}

/// The speed of an `agents` line: `profile NAME` or a speed token.
pub open spec fn agent_speed_is(speed: AgentSpeed, tv: Seq<Seq<char>>) -> bool {
    match speed {
        AgentSpeed::Given(q) => speed_shift(tv) == 0 && speed_is(q, tv[13]),
        AgentSpeed::Profile(n) => speed_shift(tv) == 1 && tv.len() > 14 && n@ == tv[14],
    }
}

pub open spec fn agents_is(d: AgentsDecl, tv: Seq<Seq<char>>) -> bool {
    let s = speed_shift(tv);
    &&& tv.len() >= 18 + s
    &&& d.id@ == tv[1]
    &&& unsigned_literal(tv[3]) == Some(d.count as nat)
    &&& d.surface@ == tv[5]
    &&& point_is(d.at, tv, 7)
    &&& d.destination@ == tv[11]
    &&& agent_speed_is(d.speed, tv)
    &&& length_is(d.radius, tv[15 + s])
    &&& length_is(d.height, tv[17 + s])
    &&& agent_options(tv) matches Some(o) && {
        &&& quantity_option_is(d.release_at, o.0, tv, |q: Quantity, t: Seq<char>| duration_is(q, t))
        &&& quantity_option_is(d.release_interval, o.1, tv, |q: Quantity, t: Seq<char>| duration_is(q, t))
        &&& match (d.release_batch_size, o.2) {
            (None, None) => true,
            (Some(b), Some(k)) => 0 <= k < tv.len() && unsigned_literal(tv[k]) == Some(b as nat),
            _ => false,
        }
        &&& strings_at(d.via@, o.3, tv)
        &&& strings_at(d.alternative_destinations@, o.4, tv)
        &&& d.excluded_connector_kinds@ == kinds_in_order(o.5)
    }
}

pub open spec fn message_is(d: MessageDecl, tv: Seq<Seq<char>>) -> bool {
    &&& tv.len() >= 22
    &&& d.id@ == tv[1]
    &&& information_source_of(tv[3]) == Some(d.source)
    &&& d.surface@ == tv[5]
    &&& point_is(d.origin, tv, 7)
    &&& claim_is(d.claim, tv[11], tv[12], tv[13])
    &&& bool_literal(tv[15]) == Some(d.truthful)
    &&& duration_is(d.at, tv[17])
    &&& length_is(d.reach, tv[19])
    &&& plain_is(d.trust, tv[21])
    &&& sampling_key(tv, 22) matches Some(o) && string_option_is(d.sampling_key, o, tv)
}

pub open spec fn countermeasure_is(d: CountermeasureDecl, tv: Seq<Seq<char>>) -> bool {
    &&& tv.len() >= 18
    &&& d.id@ == tv[1]
    &&& d.corrects@ == tv[3]
    &&& information_source_of(tv[5]) == Some(d.source)
    &&& d.surface@ == tv[7]
    &&& point_is(d.origin, tv, 9)
    &&& duration_is(d.at, tv[13])
    &&& length_is(d.reach, tv[15])
    &&& plain_is(d.trust, tv[17])
    &&& sampling_key(tv, 18) matches Some(o) && string_option_is(d.sampling_key, o, tv)
}

/// The declaration that an accepted line's tokens denote.
pub open spec fn declaration_is(d: Declaration, tv: Seq<Seq<char>>) -> bool {
    tv.len() > 0 && match d {
        Declaration::Scenario(name) => tv[0] == "scenario"@ && tv.len() == 2 && name@ == tv[1],
        Declaration::Seed(seed) => tv[0] == "seed"@ && tv.len() == 2 && unsigned_literal(tv[1])
            == Some(seed as nat),
        Declaration::Duration(q) => tv[0] == "duration"@ && tv.len() == 2 && duration_is(q, tv[1]),
        Declaration::Timestep(q) => tv[0] == "timestep"@ && tv.len() == 2 && duration_is(q, tv[1]),
        Declaration::Surface(s) => tv[0] == "surface"@ && tv.len() == 9 && s.id@ == tv[1]
            && point_is(s.origin, tv, 3) && length_is(s.width, tv[7]) && length_is(s.depth, tv[8]),
        Declaration::Obstacle(o) => tv[0] == "obstacle"@ && tv.len() == 11 && o.id@ == tv[1]
            && o.surface@ == tv[3] && point_is(o.at, tv, 5) && length_is(o.width, tv[9])
            && length_is(o.depth, tv[10]),
        Declaration::Waypoint(w) => tv[0] == "waypoint"@ && tv.len() >= 8 && w.id@ == tv[1]
            && w.surface@ == tv[3] && point_is(w.at, tv, 5) && match w.dwell {
            None => tv.len() == 8,
            Some(q) => tv.len() == 10 && duration_is(q, tv[9]),
        },
        Declaration::Exit(e) => tv[0] == "exit"@ && tv.len() >= 10 && e.id@ == tv[1] && e.surface@
            == tv[3] && point_is(e.at, tv, 5) && length_is(e.width, tv[9]) && (final_exit_capacity(
            tv,
        ) matches Some(o) && quantity_option_is(
            e.capacity,
            o,
            tv,
            |q: Quantity, t: Seq<char>| rate_is(q, t),
        )),
        Declaration::Connector(c) => connector_is(c, tv),
        Declaration::ConnectorState(s) => tv[0] == "connector-state"@ && state_change_is(s, tv),
        Declaration::ExitState(s) => tv[0] == "exit-state"@ && state_change_is(s, tv),
        Declaration::GateState(s) => tv[0] == "gate-state"@ && state_change_is(s, tv),
        Declaration::ConnectorCapacityState(c) => tv[0] == "connector-capacity-state"@
            && capacity_change_is(c, tv),
        Declaration::ExitCapacityState(c) => tv[0] == "exit-capacity-state"@ && capacity_change_is(
            c,
            tv,
        ),
        Declaration::GateCapacityState(c) => tv[0] == "gate-capacity-state"@ && capacity_change_is(
            c,
            tv,
        ),
        Declaration::Gate(g) => tv[0] == "gate"@ && tv.len() == 14 && g.id@ == tv[1] && g.surface@
            == tv[3] && point_is(g.at, tv, 5) && length_is(g.width, tv[9]) && rate_is(
            g.service_rate,
            tv[11],
        ) && g.destination@ == tv[13],
        Declaration::Agents(a) => tv[0] == "agents"@ && agents_is(a, tv),
        Declaration::Message(m) => tv[0] == "message"@ && message_is(m, tv),
        Declaration::Countermeasure(c) => tv[0] == "countermeasure"@ && countermeasure_is(c, tv),
        Declaration::WalkingProfile(w) => tv[0] == "walking-profile"@ && walking_profile_is(w, tv),
    }
}

pub open spec fn walking_profile_is(w: WalkingProfileDecl, tv: Seq<Seq<char>>) -> bool {
    &&& tv.len() == 11
    &&& w.id@ == tv[1]
    &&& speed_is(w.speed, tv[4])
    &&& w.catalog_sha256@ == tv[6]
    &&& w.calibration_profile_sha256@ == tv[8]
    &&& w.held_out_evaluation_sha256@ == tv[10]
}

} // verus!
