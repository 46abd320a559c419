//! Canonical source formatting for reviewable and reproducible scenario
//! programs: one declaration per line, in a fixed order of kinds, with the
//! numbers exactly as given.

use vstd::prelude::*;
use crate::model::{
    connector_kind_word, information_source_word, ConnectorKind, InformationSource, Proposition,
};
use crate::parser::ParsedScenario;
use crate::syntax::{
    AgentSpeed, AgentsDecl, CapacityChangeDecl, ConnectorDecl, ConnectorEnds, CountermeasureDecl,
    Declaration, ExitDecl, GateDecl, MessageDecl, ObstacleDecl, PointSyntax, SurfaceDecl, WaypointDecl, Quantity, StateChangeDecl, WalkingProfileDecl,
};
use crate::text::{append_decimal, append_text, decimal};

verus! {

/// A quantity with its unit.
pub open spec fn quantity_text(q: Quantity, unit: Seq<char>) -> Seq<char> {
    q.number@ + unit
}

/// A duration in the unit it was given in: `ms` or `s`.
pub open spec fn duration_text(q: Quantity) -> Seq<char> {
    q.number@ + if q.milli {
        "ms"@
    } else {
        "s"@
    }
}

/// `(Xm, Ym, Zm)`.
pub open spec fn point_text(p: PointSyntax) -> Seq<char> {
    "("@ + quantity_text(p.x, "m"@) + ", "@ + quantity_text(p.y, "m"@) + ", "@ + quantity_text(
        p.z,
        "m"@,
    ) + ")"@
}

/// An optional clause `PREFIX NUMBER UNIT`, or nothing.
pub open spec fn option_text(q: Option<Quantity>, prefix: Seq<char>, unit: Seq<char>) -> Seq<char> {
    match q {
        Some(q) => prefix + quantity_text(q, unit),
        None => Seq::empty(),
    }
}

pub open spec fn state_word(open: bool) -> Seq<char> {
    if open {
        "open"@
    } else {
        "closed"@
    }
}

fn push_quantity(out: &mut String, q: &Quantity, unit: &str)
    ensures
        final(out)@ == old(out)@ + quantity_text(*q, unit@),
{
    let ghost start = out@;
    append_text(out, q.number.as_str());
    append_text(out, unit);
    proof {
        vstd::seq_lib::lemma_concat_associative(start, q.number@, unit@);
    }
}

fn push_duration(out: &mut String, q: &Quantity)
    ensures
        final(out)@ == old(out)@ + duration_text(*q),
{
    let ghost start = out@;
    append_text(out, q.number.as_str());
    if q.milli {
        append_text(out, "ms");
    } else {
        append_text(out, "s");
    }
    proof {
        vstd::seq_lib::lemma_concat_associative(
            start,
            q.number@,
            if q.milli {
                "ms"@
            } else {
                "s"@
            },
        );
    }
}

fn point(out: &mut String, p: &PointSyntax)
    ensures
        final(out)@ == old(out)@ + point_text(*p),
{
    let ghost start = out@;
    append_text(out, "(");
    push_quantity(out, &p.x, "m");
    append_text(out, ", ");
    push_quantity(out, &p.y, "m");
    append_text(out, ", ");
    push_quantity(out, &p.z, "m");
    append_text(out, ")");
    proof {
        assert(out@ =~= start + point_text(*p));
    }
}

fn push_option(out: &mut String, q: &Option<Quantity>, prefix: &str, unit: &str)
    ensures
        final(out)@ == old(out)@ + option_text(*q, prefix@, unit@),
{
    let ghost start = out@;
    match q {
        Some(v) => {
            append_text(out, prefix);
            push_quantity(out, v, unit);
            proof {
                assert(out@ =~= start + option_text(*q, prefix@, unit@));
            }
        },
        None => {
            proof {
                assert(out@ =~= start + option_text(*q, prefix@, unit@));
            }
        },
    }
}

fn push_state(out: &mut String, open: bool)
    ensures
        final(out)@ == old(out)@ + state_word(open),
{
    if open {
        append_text(out, "open");
    } else {
        append_text(out, "closed");
    }
}

/// `FROM at POINT to TO at POINT`, after the connector's id.
pub open spec fn ends_text(e: ConnectorEnds) -> Seq<char> {
    e.id@ + " from "@ + e.from_surface@ + " at "@ + point_text(e.from) + " to "@ + e.to_surface@
        + " at "@ + point_text(e.to)
}

fn push_ends(out: &mut String, e: &ConnectorEnds)
    ensures
        final(out)@ == old(out)@ + ends_text(*e),
{
    let ghost start = out@;
    append_text(out, e.id.as_str());
    append_text(out, " from ");
    append_text(out, e.from_surface.as_str());
    append_text(out, " at ");
    point(out, &e.from);
    append_text(out, " to ");
    append_text(out, e.to_surface.as_str());
    append_text(out, " at ");
    point(out, &e.to);
    proof {
        assert(out@ =~= start + ends_text(*e));
    }
}

pub open spec fn connector_text(c: ConnectorDecl) -> Seq<char> {
    match c {
        ConnectorDecl::Stair { ends, width, capacity, clearance } => "stair "@ + ends_text(ends)
            + " width "@ + quantity_text(width, "m"@) + option_text(capacity, " capacity "@, "/s"@)
            + option_text(clearance, " clearance "@, "m"@),
        ConnectorDecl::Ramp { ends, width, capacity, clearance } => "ramp "@ + ends_text(ends)
            + " width "@ + quantity_text(width, "m"@) + option_text(capacity, " capacity "@, "/s"@)
            + option_text(clearance, " clearance "@, "m"@),
        ConnectorDecl::Escalator { ends, width, belt_speed, capacity, clearance } => "escalator "@
            + ends_text(ends) + " width "@ + quantity_text(width, "m"@) + " belt "@ + quantity_text(
            belt_speed,
            "m/s"@,
        ) + option_text(capacity, " capacity "@, "/s"@) + option_text(
            clearance,
            " clearance "@,
            "m"@,
        ),
        ConnectorDecl::Lift { ends, cabin_width, cabin_depth, capacity, cycle, clearance } => "lift "@
            + ends_text(ends) + " cabin "@ + quantity_text(cabin_width, "m"@) + " "@ + quantity_text(
            cabin_depth,
            "m"@,
        ) + " capacity "@ + decimal(capacity as nat) + " cycle "@ + duration_text(cycle)
            + option_text(clearance, " clearance "@, "m"@),
    }
}

fn push_connector(out: &mut String, c: &ConnectorDecl)
    ensures
        final(out)@ == old(out)@ + connector_text(*c),
{
    let ghost start = out@;
    match c {
        ConnectorDecl::Stair { ends, width, capacity, clearance } => {
            append_text(out, "stair ");
            push_ends(out, ends);
            append_text(out, " width ");
            push_quantity(out, width, "m");
            push_option(out, capacity, " capacity ", "/s");
            push_option(out, clearance, " clearance ", "m");
        },
        ConnectorDecl::Ramp { ends, width, capacity, clearance } => {
            append_text(out, "ramp ");
            push_ends(out, ends);
            append_text(out, " width ");
            push_quantity(out, width, "m");
            push_option(out, capacity, " capacity ", "/s");
            push_option(out, clearance, " clearance ", "m");
        },
        ConnectorDecl::Escalator { ends, width, belt_speed, capacity, clearance } => {
            append_text(out, "escalator ");
            push_ends(out, ends);
            append_text(out, " width ");
            push_quantity(out, width, "m");
            append_text(out, " belt ");
            push_quantity(out, belt_speed, "m/s");
            push_option(out, capacity, " capacity ", "/s");
            push_option(out, clearance, " clearance ", "m");
        },
        ConnectorDecl::Lift { ends, cabin_width, cabin_depth, capacity, cycle, clearance } => {
            append_text(out, "lift ");
            push_ends(out, ends);
            append_text(out, " cabin ");
            push_quantity(out, cabin_width, "m");
            append_text(out, " ");
            push_quantity(out, cabin_depth, "m");
            append_text(out, " capacity ");
            append_decimal(out, *capacity as u64);
            append_text(out, " cycle ");
            push_duration(out, cycle);
            push_option(out, clearance, " clearance ", "m");
        },
    }
    proof {
        assert(out@ =~= start + connector_text(*c));
    }
}

pub open spec fn proposition_text(p: Proposition) -> Seq<char> {
    match p {
        Proposition::ConnectorAvailability { connector, open } => "connector "@ + connector@ + " "@
            + state_word(open),
        Proposition::ExitAvailability { exit, open } => "exit "@ + exit@ + " "@ + state_word(open),
        Proposition::GateAvailability { gate, open } => "gate "@ + gate@ + " "@ + state_word(open),
    }
}

fn proposition(out: &mut String, p: &Proposition)
    ensures
        final(out)@ == old(out)@ + proposition_text(*p),
{
    let ghost start = out@;
    match p {
        Proposition::ConnectorAvailability { connector, open } => {
            append_text(out, "connector ");
            append_text(out, connector.as_str());
            append_text(out, " ");
            push_state(out, *open);
        },
        Proposition::ExitAvailability { exit, open } => {
            append_text(out, "exit ");
            append_text(out, exit.as_str());
            append_text(out, " ");
            push_state(out, *open);
        },
        Proposition::GateAvailability { gate, open } => {
            append_text(out, "gate ");
            append_text(out, gate.as_str());
            append_text(out, " ");
            push_state(out, *open);
        },
    }
    proof {
        assert(out@ =~= start + proposition_text(*p));
    }
}

/// ` PREFIX ITEM` for each item, in order.
pub open spec fn clauses_text(items: Seq<Seq<char>>, prefix: Seq<char>) -> Seq<char>
    decreases items.len(),
{
    if items.len() == 0 {
        Seq::empty()
    } else {
        clauses_text(items.drop_last(), prefix) + prefix + items.last()
    }
}

fn push_clauses(out: &mut String, items: &Vec<String>, prefix: &str)
    ensures
        final(out)@ == old(out)@ + clauses_text(crate::lexer::string_views(items@), prefix@),
{
    let ghost start = out@;
    let ghost views = crate::lexer::string_views(items@);
    let mut i: usize = 0;
    while i < items.len()
        invariant
            views == crate::lexer::string_views(items@),
            i <= items@.len(),
            out@ == start + clauses_text(views.take(i as int), prefix@),
        decreases items@.len() - i,
    {
        proof {
            assert(views.take(i + 1).drop_last() =~= views.take(i as int));
            assert(views.take(i + 1).last() == items@[i as int]@);
        }
        let ghost before = out@;
        append_text(out, prefix);
        append_text(out, items[i].as_str());
        proof {
            assert(out@ =~= start + clauses_text(views.take(i + 1), prefix@));
        }
        i += 1;
    }
    proof {
        assert(views.take(items@.len() as int) =~= views);
    }
}

/// The words of connector kinds.
pub open spec fn kind_words(kinds: Seq<ConnectorKind>) -> Seq<Seq<char>> {
    kinds.map_values(|k: ConnectorKind| connector_kind_word(k))
}

fn excluded_connector_kinds(out: &mut String, kinds: &Vec<ConnectorKind>)
    ensures
        final(out)@ == old(out)@ + clauses_text(kind_words(kinds@), " exclude "@),
{
    let ghost start = out@;
    let ghost words = kind_words(kinds@);
    let mut i: usize = 0;
    while i < kinds.len()
        invariant
            words == kind_words(kinds@),
            i <= kinds@.len(),
            out@ == start + clauses_text(words.take(i as int), " exclude "@),
        decreases kinds@.len() - i,
    {
        proof {
            assert(words.take(i + 1).drop_last() =~= words.take(i as int));
            assert(words.take(i + 1).last() == connector_kind_word(kinds@[i as int]));
        }
        append_text(out, " exclude ");
        append_text(out, kinds[i].as_str());
        proof {
            assert(out@ =~= start + clauses_text(words.take(i + 1), " exclude "@));
        }
        i += 1;
    }
    proof {
        assert(words.take(kinds@.len() as int) =~= words);
    }
}

/// The speed clause value of an agent group: a speed, or `profile NAME`.
pub open spec fn agent_speed_text(speed: AgentSpeed) -> Seq<char> {
    match speed {
        AgentSpeed::Given(q) => quantity_text(q, "m/s"@),
        AgentSpeed::Profile(n) => "profile "@ + n@,
    }
}

/// The release clause of an agent group: its release time (zero when not
/// given), then its release interval and batch size where it has them.
pub open spec fn release_text(a: AgentsDecl) -> Seq<char> {
    " release "@ + match a.release_at {
        Some(q) => duration_text(q),
        None => "0s"@,
    } + match a.release_interval {
        Some(q) => " every "@ + duration_text(q) + match a.release_batch_size {
            Some(b) => " batch "@ + decimal(b as nat),
            None => Seq::empty(),
        },
        None => Seq::empty(),
    }
}

/// An agent group's line: its waypoints, alternative exits and excluded
/// connector kinds in order, then its release clause.
pub open spec fn agents_text(a: AgentsDecl) -> Seq<char> {
    "agents "@ + a.id@ + " count "@ + decimal(a.count as nat) + " on "@ + a.surface@ + " at "@
        + point_text(a.at) + " to "@ + a.destination@ + " speed "@ + agent_speed_text(a.speed)
        + " radius "@ + quantity_text(a.radius, "m"@) + " height "@ + quantity_text(a.height, "m"@)
        + clauses_text(crate::lexer::string_views(a.via@), " via "@) + clauses_text(
        crate::lexer::string_views(a.alternative_destinations@),
        " alternative "@,
    ) + clauses_text(kind_words(a.excluded_connector_kinds@), " exclude "@) + release_text(a)
}

fn push_agent_speed(out: &mut String, speed: &AgentSpeed)
    ensures
        final(out)@ == old(out)@ + agent_speed_text(*speed),
{
    let ghost start = out@;
    match speed {
        AgentSpeed::Given(q) => push_quantity(out, q, "m/s"),
        AgentSpeed::Profile(n) => {
            append_text(out, "profile ");
            append_text(out, n.as_str());
        },
    }
    proof {
        assert(out@ =~= start + agent_speed_text(*speed));
    }
}

fn push_release(out: &mut String, a: &AgentsDecl)
    ensures
        final(out)@ == old(out)@ + release_text(*a),
{
    let ghost start = out@;
    append_text(out, " release ");
    match &a.release_at {
        Some(q) => push_duration(out, q),
        None => append_text(out, "0s"),
    }
    match &a.release_interval {
        Some(q) => {
            append_text(out, " every ");
            push_duration(out, q);
            match a.release_batch_size {
                Some(b) => {
                    append_text(out, " batch ");
                    append_decimal(out, b as u64);
                },
                None => {},
            }
        },
        None => {},
    }
    proof {
        assert(out@ =~= start + release_text(*a));
    }
}

#[verifier::spinoff_prover]
#[verifier::rlimit(60)]
fn push_agents(out: &mut String, a: &AgentsDecl)
    ensures
        final(out)@ == old(out)@ + agents_text(*a),
{
    let ghost start = out@;
    append_text(out, "agents ");
    append_text(out, a.id.as_str());
    append_text(out, " count ");
    append_decimal(out, a.count as u64);
    append_text(out, " on ");
    append_text(out, a.surface.as_str());
    append_text(out, " at ");
    point(out, &a.at);
    append_text(out, " to ");
    append_text(out, a.destination.as_str());
    append_text(out, " speed ");
    push_agent_speed(out, &a.speed);
    append_text(out, " radius ");
    push_quantity(out, &a.radius, "m");
    append_text(out, " height ");
    push_quantity(out, &a.height, "m");
    push_clauses(out, &a.via, " via ");
    push_clauses(out, &a.alternative_destinations, " alternative ");
    excluded_connector_kinds(out, &a.excluded_connector_kinds);
    push_release(out, a);
    proof {
        assert(out@ =~= start + agents_text(*a));
    }
}

/// An optional final `sample KEY` clause.
pub open spec fn sample_text(key: Option<String>) -> Seq<char> {
    match key {
        Some(k) => " sample "@ + k@,
        None => Seq::empty(),
    }
}

fn push_sample(out: &mut String, key: &Option<String>)
    ensures
        final(out)@ == old(out)@ + sample_text(*key),
{
    let ghost start = out@;
    match key {
        Some(k) => {
            append_text(out, " sample ");
            append_text(out, k.as_str());
        },
        None => {},
    }
    proof {
        assert(out@ =~= start + sample_text(*key));
    }
}

pub open spec fn message_text(m: MessageDecl) -> Seq<char> {
    message_core_text(m) + sample_text(m.sampling_key)
}

/// A message's line before its sampling key.
pub open spec fn message_core_text(m: MessageDecl) -> Seq<char> {
    "message "@ + m.id@ + " source "@ + information_source_word(m.source) + " on "@ + m.surface@
        + " at "@ + point_text(m.origin) + " claim "@ + proposition_text(m.claim) + " truth "@
        + if m.truthful {
        "true"@
    } else {
        "false"@
    } + " time "@ + duration_text(m.at) + " reach "@ + quantity_text(m.reach, "m"@) + " trust "@
        + m.trust.number@
}

fn push_message(out: &mut String, m: &MessageDecl)
    ensures
        final(out)@ == old(out)@ + message_text(*m),
{
    let ghost start = out@;
    push_message_core(out, m);
    push_sample(out, &m.sampling_key);
    proof {
        assert(out@ =~= start + message_text(*m));
    }
}

fn push_message_core(out: &mut String, m: &MessageDecl)
    ensures
        final(out)@ == old(out)@ + message_core_text(*m),
{
    let ghost start = out@;
    append_text(out, "message ");
    append_text(out, m.id.as_str());
    append_text(out, " source ");
    append_text(out, m.source.as_str());
    append_text(out, " on ");
    append_text(out, m.surface.as_str());
    append_text(out, " at ");
    point(out, &m.origin);
    append_text(out, " claim ");
    proposition(out, &m.claim);
    append_text(out, " truth ");
    if m.truthful {
        append_text(out, "true");
    } else {
        append_text(out, "false");
    }
    append_text(out, " time ");
    push_duration(out, &m.at);
    append_text(out, " reach ");
    push_quantity(out, &m.reach, "m");
    append_text(out, " trust ");
    append_text(out, m.trust.number.as_str());
    proof {
        assert(out@ =~= start + message_core_text(*m));
    }
}

pub open spec fn countermeasure_text(c: CountermeasureDecl) -> Seq<char> {
    countermeasure_core_text(c) + sample_text(c.sampling_key)
}

/// A countermeasure's line before its sampling key.
pub open spec fn countermeasure_core_text(c: CountermeasureDecl) -> Seq<char> {
    "countermeasure "@ + c.id@ + " corrects "@ + c.corrects@ + " source "@ + information_source_word(
        c.source,
    ) + " on "@ + c.surface@ + " at "@ + point_text(c.origin) + " time "@ + duration_text(c.at)
        + " reach "@ + quantity_text(c.reach, "m"@) + " trust "@ + c.trust.number@
}

fn push_countermeasure(out: &mut String, c: &CountermeasureDecl)
    ensures
        final(out)@ == old(out)@ + countermeasure_text(*c),
{
    let ghost start = out@;
    push_countermeasure_core(out, c);
    push_sample(out, &c.sampling_key);
    proof {
        assert(out@ =~= start + countermeasure_text(*c));
    }
}

fn push_countermeasure_core(out: &mut String, c: &CountermeasureDecl)
    ensures
        final(out)@ == old(out)@ + countermeasure_core_text(*c),
{
    let ghost start = out@;
    append_text(out, "countermeasure ");
    append_text(out, c.id.as_str());
    append_text(out, " corrects ");
    append_text(out, c.corrects.as_str());
    append_text(out, " source ");
    append_text(out, c.source.as_str());
    append_text(out, " on ");
    append_text(out, c.surface.as_str());
    append_text(out, " at ");
    point(out, &c.origin);
    append_text(out, " time ");
    push_duration(out, &c.at);
    append_text(out, " reach ");
    push_quantity(out, &c.reach, "m");
    append_text(out, " trust ");
    append_text(out, c.trust.number.as_str());
    proof {
        assert(out@ =~= start + countermeasure_core_text(*c));
    }
}

pub open spec fn state_change_text(keyword: Seq<char>, kind: Seq<char>, s: StateChangeDecl) -> Seq<char> {
    keyword + " "@ + s.id@ + " "@ + kind + " "@ + s.subject@ + " "@ + state_word(s.open)
        + " time "@ + duration_text(s.at)
}

fn push_state_change(out: &mut String, keyword: &str, kind: &str, s: &StateChangeDecl)
    ensures
        final(out)@ == old(out)@ + state_change_text(keyword@, kind@, *s),
{
    let ghost start = out@;
    append_text(out, keyword);
    append_text(out, " ");
    append_text(out, s.id.as_str());
    append_text(out, " ");
    append_text(out, kind);
    append_text(out, " ");
    append_text(out, s.subject.as_str());
    append_text(out, " ");
    push_state(out, s.open);
    append_text(out, " time ");
    push_duration(out, &s.at);
    proof {
        assert(out@ =~= start + state_change_text(keyword@, kind@, *s));
    }
}

pub open spec fn capacity_change_text(keyword: Seq<char>, kind: Seq<char>, c: CapacityChangeDecl) -> Seq<char> {
    keyword + " "@ + c.id@ + " "@ + kind + " "@ + c.subject@ + " capacity "@ + quantity_text(
        c.capacity,
        "/s"@,
    ) + " time "@ + duration_text(c.at)
}

fn push_capacity_change(out: &mut String, keyword: &str, kind: &str, c: &CapacityChangeDecl)
    ensures
        final(out)@ == old(out)@ + capacity_change_text(keyword@, kind@, *c),
{
    let ghost start = out@;
    append_text(out, keyword);
    append_text(out, " ");
    append_text(out, c.id.as_str());
    append_text(out, " ");
    append_text(out, kind);
    append_text(out, " ");
    append_text(out, c.subject.as_str());
    append_text(out, " capacity ");
    push_quantity(out, &c.capacity, "/s");
    append_text(out, " time ");
    push_duration(out, &c.at);
    proof {
        assert(out@ =~= start + capacity_change_text(keyword@, kind@, *c));
    }
}

pub open spec fn surface_text(s: SurfaceDecl) -> Seq<char> {
    "surface "@ + s.id@ + " at "@ + point_text(s.origin) + " size ("@ + quantity_text(s.width, "m"@)
        + ", "@ + quantity_text(s.depth, "m"@) + ")"@
}

pub open spec fn obstacle_text(o: ObstacleDecl) -> Seq<char> {
    "obstacle "@ + o.id@ + " on "@ + o.surface@ + " at "@ + point_text(o.at) + " size ("@
        + quantity_text(o.width, "m"@) + ", "@ + quantity_text(o.depth, "m"@) + ")"@
}

pub open spec fn waypoint_text(w: WaypointDecl) -> Seq<char> {
    "waypoint "@ + w.id@ + " on "@ + w.surface@ + " at "@ + point_text(w.at) + " dwell "@
        + match w.dwell {
        Some(q) => duration_text(q),
        None => "0s"@,
    }
}

pub open spec fn exit_text(e: ExitDecl) -> Seq<char> {
    "exit "@ + e.id@ + " on "@ + e.surface@ + " at "@ + point_text(e.at) + " width "@ + quantity_text(
        e.width,
        "m"@,
    ) + option_text(e.capacity, " capacity "@, "/s"@)
}

pub open spec fn gate_text(g: GateDecl) -> Seq<char> {
    "gate "@ + g.id@ + " on "@ + g.surface@ + " at "@ + point_text(g.at) + " width "@ + quantity_text(
        g.width,
        "m"@,
    ) + " capacity "@ + quantity_text(g.service_rate, "/s"@) + " to "@ + g.destination@
}

pub open spec fn walking_profile_text(w: WalkingProfileDecl) -> Seq<char> {
    "walking-profile "@ + w.id@ + " horizontal-free-walking speed "@ + quantity_text(w.speed, "m/s"@)
        + " catalog-sha256 "@ + w.catalog_sha256@ + " calibration-profile-sha256 "@
        + w.calibration_profile_sha256@ + " held-out-evaluation-sha256 "@ + w.held_out_evaluation_sha256@
}

fn push_walking_profile(out: &mut String, w: &WalkingProfileDecl)
    ensures
        final(out)@ == old(out)@ + walking_profile_text(*w),
{
    let ghost start = out@;
    append_text(out, "walking-profile ");
    append_text(out, w.id.as_str());
    append_text(out, " horizontal-free-walking speed ");
    push_quantity(out, &w.speed, "m/s");
    append_text(out, " catalog-sha256 ");
    append_text(out, w.catalog_sha256.as_str());
    append_text(out, " calibration-profile-sha256 ");
    append_text(out, w.calibration_profile_sha256.as_str());
    append_text(out, " held-out-evaluation-sha256 ");
    append_text(out, w.held_out_evaluation_sha256.as_str());
    proof {
        assert(out@ =~= start + walking_profile_text(*w));
    }
}

/// The line of a declaration that the canonical form writes, without its
/// line ending. The single declarations are written by the header.
pub open spec fn declaration_text(d: Declaration) -> Seq<char> {
    match d {
        Declaration::Surface(s) => surface_text(s),
        Declaration::Obstacle(o) => obstacle_text(o),
        Declaration::Waypoint(w) => waypoint_text(w),
        Declaration::Exit(e) => exit_text(e),
        Declaration::Connector(c) => connector_text(c),
        Declaration::ConnectorState(s) => state_change_text("connector-state"@, "connector"@, s),
        Declaration::ExitState(s) => state_change_text("exit-state"@, "exit"@, s),
        Declaration::GateState(s) => state_change_text("gate-state"@, "gate"@, s),
        Declaration::ConnectorCapacityState(c) => capacity_change_text(
            "connector-capacity-state"@,
            "connector"@,
            c,
        ),
        Declaration::ExitCapacityState(c) => capacity_change_text("exit-capacity-state"@, "exit"@, c),
        Declaration::GateCapacityState(c) => capacity_change_text("gate-capacity-state"@, "gate"@, c),
        Declaration::WalkingProfile(w) => walking_profile_text(w),
        Declaration::Gate(g) => gate_text(g),
        Declaration::Agents(a) => agents_text(a),
        Declaration::Message(m) => message_text(m),
        Declaration::Countermeasure(c) => countermeasure_text(c),
        _ => Seq::empty(),
    }
}

/// The number of sections of canonical text.
pub open spec fn section_count() -> int {
    16
}

/// The section of canonical text that holds a declaration. The four single
/// declarations, which the header writes, have none.
pub open spec fn section_of(d: Declaration) -> int {
    match d {
        Declaration::WalkingProfile(_) => 0,
        Declaration::Surface(_) => 1,
        Declaration::Obstacle(_) => 2,
        Declaration::Waypoint(_) => 3,
        Declaration::Exit(_) => 4,
        Declaration::Connector(_) => 5,
        Declaration::ConnectorState(_) => 6,
        Declaration::ExitState(_) => 7,
        Declaration::ConnectorCapacityState(_) => 8,
        Declaration::ExitCapacityState(_) => 9,
        Declaration::Gate(_) => 10,
        Declaration::GateState(_) => 11,
        Declaration::GateCapacityState(_) => 12,
        Declaration::Agents(_) => 13,
        Declaration::Message(_) => 14,
        Declaration::Countermeasure(_) => 15,
        _ => -1,
    }
}

fn section(d: &Declaration) -> (r: i32)
    ensures
        r as int == section_of(*d),
{
    match d {
        Declaration::WalkingProfile(_) => 0,
        Declaration::Surface(_) => 1,
        Declaration::Obstacle(_) => 2,
        Declaration::Waypoint(_) => 3,
        Declaration::Exit(_) => 4,
        Declaration::Connector(_) => 5,
        Declaration::ConnectorState(_) => 6,
        Declaration::ExitState(_) => 7,
        Declaration::ConnectorCapacityState(_) => 8,
        Declaration::ExitCapacityState(_) => 9,
        Declaration::Gate(_) => 10,
        Declaration::GateState(_) => 11,
        Declaration::GateCapacityState(_) => 12,
        Declaration::Agents(_) => 13,
        Declaration::Message(_) => 14,
        Declaration::Countermeasure(_) => 15,
        _ => -1,
    }
}

/// Render one declaration's line.
pub fn format_declaration(d: &Declaration) -> (r: String)
    ensures
        r@ == declaration_text(*d),
{
    let mut out = String::new();
    match d {
        Declaration::Surface(s) => {
            append_text(&mut out, "surface ");
            append_text(&mut out, s.id.as_str());
            append_text(&mut out, " at ");
            point(&mut out, &s.origin);
            append_text(&mut out, " size (");
            push_quantity(&mut out, &s.width, "m");
            append_text(&mut out, ", ");
            push_quantity(&mut out, &s.depth, "m");
            append_text(&mut out, ")");
        },
        Declaration::Obstacle(o) => {
            append_text(&mut out, "obstacle ");
            append_text(&mut out, o.id.as_str());
            append_text(&mut out, " on ");
            append_text(&mut out, o.surface.as_str());
            append_text(&mut out, " at ");
            point(&mut out, &o.at);
            append_text(&mut out, " size (");
            push_quantity(&mut out, &o.width, "m");
            append_text(&mut out, ", ");
            push_quantity(&mut out, &o.depth, "m");
            append_text(&mut out, ")");
        },
        Declaration::Waypoint(w) => {
            append_text(&mut out, "waypoint ");
            append_text(&mut out, w.id.as_str());
            append_text(&mut out, " on ");
            append_text(&mut out, w.surface.as_str());
            append_text(&mut out, " at ");
            point(&mut out, &w.at);
            append_text(&mut out, " dwell ");
            match &w.dwell {
                Some(q) => push_duration(&mut out, q),
                None => append_text(&mut out, "0s"),
            }
        },
        Declaration::Exit(e) => {
            append_text(&mut out, "exit ");
            append_text(&mut out, e.id.as_str());
            append_text(&mut out, " on ");
            append_text(&mut out, e.surface.as_str());
            append_text(&mut out, " at ");
            point(&mut out, &e.at);
            append_text(&mut out, " width ");
            push_quantity(&mut out, &e.width, "m");
            push_option(&mut out, &e.capacity, " capacity ", "/s");
        },
        Declaration::Connector(c) => push_connector(&mut out, c),
        Declaration::ConnectorState(s) => push_state_change(&mut out, "connector-state", "connector", s),
        Declaration::ExitState(s) => push_state_change(&mut out, "exit-state", "exit", s),
        Declaration::GateState(s) => push_state_change(&mut out, "gate-state", "gate", s),
        Declaration::ConnectorCapacityState(c) => push_capacity_change(
            &mut out,
            "connector-capacity-state",
            "connector",
            c,
        ),
        Declaration::ExitCapacityState(c) => push_capacity_change(&mut out, "exit-capacity-state", "exit", c),
        Declaration::GateCapacityState(c) => push_capacity_change(&mut out, "gate-capacity-state", "gate", c),
        Declaration::WalkingProfile(w) => push_walking_profile(&mut out, w),
        Declaration::Gate(g) => {
            append_text(&mut out, "gate ");
            append_text(&mut out, g.id.as_str());
            append_text(&mut out, " on ");
            append_text(&mut out, g.surface.as_str());
            append_text(&mut out, " at ");
            point(&mut out, &g.at);
            append_text(&mut out, " width ");
            push_quantity(&mut out, &g.width, "m");
            append_text(&mut out, " capacity ");
            push_quantity(&mut out, &g.service_rate, "/s");
            append_text(&mut out, " to ");
            append_text(&mut out, g.destination.as_str());
        },
        Declaration::Agents(a) => push_agents(&mut out, a),
        Declaration::Message(m) => push_message(&mut out, m),
        Declaration::Countermeasure(c) => push_countermeasure(&mut out, c),
        _ => {},
    }
    proof {
        assert(out@ =~= declaration_text(*d));
    }
    out
}

/// The lines of the declarations of one section, each ended by `\n`.
pub open spec fn section_text(decls: Seq<Declaration>, sec: int) -> Seq<char>
    decreases decls.len(),
{
    if decls.len() == 0 {
        Seq::empty()
    } else {
        section_text(decls.drop_last(), sec) + if section_of(decls.last()) == sec {
            declaration_text(decls.last()) + seq!['\n']
        } else {
            Seq::empty()
        }
    }
}

/// The sections `0..n`, in order.
pub open spec fn sections_text(decls: Seq<Declaration>, n: int) -> Seq<char>
    decreases n,
{
    if n <= 0 {
        Seq::empty()
    } else {
        sections_text(decls, n - 1) + section_text(decls, n - 1)
    }
}

/// The canonical source of a scenario: the `scenario`, `seed`, `duration`
/// and `timestep` lines, then walking profiles, surfaces, obstacles,
/// waypoints, exits, connectors, connector and exit state and capacity
/// changes, gates, gate state and capacity changes, agent groups, messages
/// and countermeasures, each kind in declaration order.
pub open spec fn scenario_text(p: ParsedScenario) -> Seq<char> {
    "scenario \""@ + p.name@ + "\"\n"@ + "seed "@ + decimal(p.seed as nat) + "\n"@ + "duration "@
        + duration_text(p.duration) + "\n"@ + "timestep "@ + duration_text(p.timestep) + "\n"@
        + sections_text(p.declarations@, section_count())
}

fn push_section(out: &mut String, decls: &Vec<Declaration>, sec: i32)
    ensures
        final(out)@ == old(out)@ + section_text(decls@, sec as int),
{
    let ghost start = out@;
    let mut i: usize = 0;
    while i < decls.len()
        invariant
            i <= decls@.len(),
            out@ == start + section_text(decls@.take(i as int), sec as int),
        decreases decls@.len() - i,
    {
        proof {
            assert(decls@.take(i + 1).drop_last() =~= decls@.take(i as int));
            assert(decls@.take(i + 1).last() == decls@[i as int]);
        }
        if section(&decls[i]) == sec {
            let line = format_declaration(&decls[i]);
            append_text(out, line.as_str());
            out.push('\n');
        }
        proof {
            assert(out@ =~= start + section_text(decls@.take(i + 1), sec as int));
        }
        i += 1;
    }
    proof {
        assert(decls@.take(decls@.len() as int) =~= decls@);
    }
}

/// Render a parsed scenario in canonical source form.
pub fn format_scenario(p: &ParsedScenario) -> (r: String)
    ensures
        r@ == scenario_text(*p),
{
    let mut out = String::new();
    append_text(&mut out, "scenario \"");
    append_text(&mut out, p.name.as_str());
    append_text(&mut out, "\"\n");
    append_text(&mut out, "seed ");
    append_decimal(&mut out, p.seed);
    append_text(&mut out, "\n");
    append_text(&mut out, "duration ");
    push_duration(&mut out, &p.duration);
    append_text(&mut out, "\n");
    append_text(&mut out, "timestep ");
    push_duration(&mut out, &p.timestep);
    append_text(&mut out, "\n");
    let ghost header = out@;
    let mut sec: i32 = 0;
    while sec < 16
        invariant
            0 <= sec <= 16,
            section_count() == 16,
            out@ == header + sections_text(p.declarations@, sec as int),
        decreases 16 - sec,
    {
        push_section(&mut out, &p.declarations, sec);
        proof {
            assert(out@ =~= header + sections_text(p.declarations@, sec + 1));
        }
        sec += 1;
    }
    proof {
        assert(out@ =~= scenario_text(*p));
    }
    out
}

} // verus!
