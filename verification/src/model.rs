//! The non-numeric vocabulary of the scenario model: connector kinds,
//! information sources, propositions and portal resources.

use vstd::prelude::*;

verus! {

/// The resource whose physical portal is partitioned into authored lanes.
#[derive(Debug, Clone)]
pub enum PortalResource {
    Connector { id: String },
    Exit { id: String },
    Gate { id: String },
}

pub open spec fn portal_resource_kind(r: PortalResource) -> Seq<char> {
    match r {
        PortalResource::Connector { .. } => "connector"@,
        PortalResource::Exit { .. } => "exit"@,
        PortalResource::Gate { .. } => "gate"@,
    }
}

pub open spec fn portal_resource_id(r: PortalResource) -> Seq<char> {
    match r {
        PortalResource::Connector { id } => id@,
        PortalResource::Exit { id } => id@,
        PortalResource::Gate { id } => id@,
    }
}

impl PortalResource {
    /// The kind of resource: `connector`, `exit` or `gate`.
    pub fn kind(&self) -> (r: &'static str)
        ensures
            r@ == portal_resource_kind(*self),
    {
        match self {
            PortalResource::Connector { .. } => "connector",
            PortalResource::Exit { .. } => "exit",
            PortalResource::Gate { .. } => "gate",
        }
    }

    /// The id of the resource.
    pub fn id(&self) -> (r: &str)
        ensures
            r@ == portal_resource_id(*self),
    {
        match self {
            PortalResource::Connector { id } => id.as_str(),
            PortalResource::Exit { id } => id.as_str(),
            PortalResource::Gate { id } => id.as_str(),
        }
    }
}

/// The authored global surface-coordinate axis across a portal's width.
#[derive(Debug, Clone, Copy, PartialEq, Eq, Structural)]
pub enum PortalAxis {
    X,
    Y,
}

impl PortalAxis {
    pub fn as_str(self) -> (r: &'static str)
        ensures
            r@ == (match self {
                PortalAxis::X => "x"@,
                PortalAxis::Y => "y"@,
            }),
    {
        match self {
            PortalAxis::X => "x",
            PortalAxis::Y => "y",
        }
    }
}

/// Explicit spatial lanes at a connector, gate, or exit portal. Lanes affect
/// only target and landing placement; their count does not create a service rate.
#[derive(Debug, Clone)]
pub struct PortalLanes {
    pub id: String,
    pub resource: PortalResource,
    pub axis: PortalAxis,
    pub count: u32,
}

/// A connector class used for authored route-eligibility constraints.
#[derive(Debug, Clone, Copy, PartialEq, Eq, Structural)]
pub enum ConnectorKind {
    Stair,
    Ramp,
    Escalator,
    Lift,
}

/// The source word of a connector kind.
pub open spec fn connector_kind_word(k: ConnectorKind) -> Seq<char> {
    match k {
        ConnectorKind::Stair => "stair"@,
        ConnectorKind::Ramp => "ramp"@,
        ConnectorKind::Escalator => "escalator"@,
        ConnectorKind::Lift => "lift"@,
    }
}

impl ConnectorKind {
    pub fn as_str(self) -> (r: &'static str)
        ensures
            r@ == connector_kind_word(self),
    {
        match self {
            ConnectorKind::Stair => "stair",
            ConnectorKind::Ramp => "ramp",
            ConnectorKind::Escalator => "escalator",
            ConnectorKind::Lift => "lift",
        }
    }
}

/// The only current evidence-backed walking-profile primitive.
#[derive(Debug, Clone, Copy, PartialEq, Eq, Structural)]
pub enum WalkingSpeedProfileKind {
    HorizontalFreeWalking,
}

impl WalkingSpeedProfileKind {
    pub fn as_str(self) -> (r: &'static str)
        ensures
            r@ == "horizontal-free-walking"@,
    {
        match self {
            WalkingSpeedProfileKind::HorizontalFreeWalking => "horizontal-free-walking",
        }
    }
}

#[derive(Debug, Clone, Copy, PartialEq, Eq, Structural)]
pub enum InformationSource {
    Peer,
    Official,
    Signage,
    Staff,
}

/// The source word of an information source.
pub open spec fn information_source_word(s: InformationSource) -> Seq<char> {
    match s {
        InformationSource::Peer => "peer"@,
        InformationSource::Official => "official"@,
        InformationSource::Signage => "signage"@,
        InformationSource::Staff => "staff"@,
    }
}

impl InformationSource {
    pub fn as_str(&self) -> (r: &'static str)
        ensures
            r@ == information_source_word(*self),
    {
        match self {
            InformationSource::Peer => "peer",
            InformationSource::Official => "official",
            InformationSource::Signage => "signage",
            InformationSource::Staff => "staff",
        }
    }
}

/// A route-relevant, machine-checkable proposition.
#[derive(Debug, Clone)]
pub enum Proposition {
    ConnectorAvailability { connector: String, open: bool },
    ExitAvailability { exit: String, open: bool },
    GateAvailability { gate: String, open: bool },
}

pub open spec fn proposition_kind(p: Proposition) -> Seq<char> {
    match p {
        Proposition::ConnectorAvailability { .. } => "connector"@,
        Proposition::ExitAvailability { .. } => "exit"@,
        Proposition::GateAvailability { .. } => "gate"@,
    }
}

pub open spec fn proposition_subject(p: Proposition) -> Seq<char> {
    match p {
        Proposition::ConnectorAvailability { connector, .. } => connector@,
        Proposition::ExitAvailability { exit, .. } => exit@,
        Proposition::GateAvailability { gate, .. } => gate@,
    }
}

pub open spec fn proposition_open(p: Proposition) -> bool {
    match p {
        Proposition::ConnectorAvailability { open, .. } => open,
        Proposition::ExitAvailability { open, .. } => open,
        Proposition::GateAvailability { open, .. } => open,
    }
}

impl Proposition {
    pub fn subject_kind(&self) -> (r: &'static str)
        ensures
            r@ == proposition_kind(*self),
    {
        match self {
            Proposition::ConnectorAvailability { .. } => "connector",
            Proposition::ExitAvailability { .. } => "exit",
            Proposition::GateAvailability { .. } => "gate",
        }
    }

    pub fn subject(&self) -> (r: &str)
        ensures
            r@ == proposition_subject(*self),
    {
        match self {
            Proposition::ConnectorAvailability { connector, .. } => connector.as_str(),
            Proposition::ExitAvailability { exit, .. } => exit.as_str(),
            Proposition::GateAvailability { gate, .. } => gate.as_str(),
        }
    }

    pub fn is_open(&self) -> (r: bool)
        ensures
            r == proposition_open(*self),
    {
        match self {
            Proposition::ConnectorAvailability { open, .. } => *open,
            Proposition::ExitAvailability { open, .. } => *open,
            Proposition::GateAvailability { open, .. } => *open,
        }
    }
}

/// The number of columns of the row-major spawn grid of a group of `count`
/// agents: the least `c >= 1` with `c * c >= count`.
pub fn spawn_grid_columns(count: u32) -> (columns: u32)
    ensures
        1 <= columns,
        columns as int * columns as int >= count as int,
        columns == 1 || (columns as int - 1) * (columns as int - 1) < count as int,
{
    let mut columns: u32 = 1;
    loop
        invariant
            1 <= columns <= 65536,
            columns == 1 || (columns as int - 1) * (columns as int - 1) < count as int,
        ensures
            1 <= columns,
            columns as int * columns as int >= count as int,
            columns == 1 || (columns as int - 1) * (columns as int - 1) < count as int,
        decreases 65536 - columns,
    {
        proof {
            assert((columns as int) * (columns as int) <= 65536 * 65536) by (nonlinear_arith)
                requires
                    1 <= columns <= 65536,
            ;
        }
        let square = (columns as u64) * (columns as u64);
        if square >= count as u64 {
            break;
        }
        proof {
            if columns >= 65536 {
                assert(65536 * 65536 <= (columns as int) * (columns as int)) by (nonlinear_arith)
                    requires
                        columns >= 65536,
                ;
            }
        }
        columns += 1;
    }
    columns
}

} // verus!
