//! Static validation of manifests that tie authored scenario points to
//! selected points of a locally projected OpenStreetMap observation.

use vstd::prelude::*;
use crate::evidence::relative_path_message;
use crate::issues::{issue_texts, lemma_issue_texts_index, lemma_issue_texts_len, msg, push_issue, push_step, Issue, IssueText};
use crate::text::{
    append_text, indexed, indexed_path, is_blank, is_blank_text, is_normal_relative_path,
    is_safe_identifier, is_safe_identifier_text, normal_relative_path, only_if, text_eq,
};

verus! {

/// A manifest for proving that specifically selected authored scenario points
/// use coordinates from a verified local OSM reference. It does not infer any
/// other scenario property from map data.
#[derive(Debug, Clone)]
pub struct OsmScenarioAnchorManifest {
    pub schema_version: String,
    pub name: String,
    pub description: String,
    /// Path interpreted by the CLI relative to this manifest.
    pub scenario_source: String,
    pub anchors: Vec<OsmScenarioCoordinateAnchor>,
    /// The author's intended-use and interpretation boundary.
    pub claim_boundary: String,
}

/// One selected point in a scenario that must exactly match a selected local
/// OSM point. The point match is provenance only.
#[derive(Debug, Clone)]
pub struct OsmScenarioCoordinateAnchor {
    pub id: String,
    pub target: OsmScenarioAnchorTarget,
    pub source: OsmScenarioAnchorSource,
    pub rationale: String,
}

/// A point-bearing authored scenario field eligible for OSM coordinate anchoring.
#[derive(Debug, Clone)]
pub enum OsmScenarioAnchorTarget {
    Exit { id: String },
    Gate { id: String },
    Waypoint { id: String },
    AgentSpawn { id: String },
    ConnectorFrom { id: String },
    ConnectorTo { id: String },
}

/// A point from a projected OSM observation. A way source requires an explicit
/// preserved source-node identifier.
#[derive(Debug, Clone)]
pub enum OsmScenarioAnchorSource {
    NodeFeature { object_id: i64, category: String },
    WayNode { object_id: i64, node_id: i64, category: String },
}

/// One author-facing manifest problem.
#[derive(Debug, Clone)]
pub struct OsmScenarioAnchorValidationError {
    pub path: String,
    pub message: String,
}

impl View for OsmScenarioAnchorValidationError {
    type V = IssueText;

    open spec fn view(&self) -> IssueText {
        (self.path@, self.message@)
    }
}

impl OsmScenarioAnchorValidationError {
    /// The `path: message` rendering of the error.
    pub fn to_text(&self) -> (r: String)
        ensures
            r@ == self.path@ + seq![':', ' '] + self.message@,
    {
        let mut out = self.path.clone();
        out.push(':');
        out.push(' ');
        append_text(&mut out, self.message.as_str());
        out
    }
}

pub open spec fn anchor_issue_texts(errors: Seq<OsmScenarioAnchorValidationError>) -> Seq<IssueText> {
    errors.map_values(|e: OsmScenarioAnchorValidationError| e@)
}

/// The scenario element kind a target names.
pub open spec fn target_kind(t: OsmScenarioAnchorTarget) -> Seq<char> {
    match t {
        OsmScenarioAnchorTarget::Exit { .. } => "exit"@,
        OsmScenarioAnchorTarget::Gate { .. } => "gate"@,
        OsmScenarioAnchorTarget::Waypoint { .. } => "waypoint"@,
        OsmScenarioAnchorTarget::AgentSpawn { .. } => "agent_spawn"@,
        OsmScenarioAnchorTarget::ConnectorFrom { .. } => "connector_from"@,
        OsmScenarioAnchorTarget::ConnectorTo { .. } => "connector_to"@,
    }
}

/// The scenario element id a target names.
pub open spec fn target_id(t: OsmScenarioAnchorTarget) -> Seq<char> {
    match t {
        OsmScenarioAnchorTarget::Exit { id } => id@,
        OsmScenarioAnchorTarget::Gate { id } => id@,
        OsmScenarioAnchorTarget::Waypoint { id } => id@,
        OsmScenarioAnchorTarget::AgentSpawn { id } => id@,
        OsmScenarioAnchorTarget::ConnectorFrom { id } => id@,
        OsmScenarioAnchorTarget::ConnectorTo { id } => id@,
    }
}

/// The kind and id of the scenario element a target names.
pub fn anchor_target_identity(target: &OsmScenarioAnchorTarget) -> (r: (&str, &str))
    ensures
        r.0@ == target_kind(*target),
        r.1@ == target_id(*target),
{
    match target {
        OsmScenarioAnchorTarget::Exit { id } => ("exit", id.as_str()),
        OsmScenarioAnchorTarget::Gate { id } => ("gate", id.as_str()),
        OsmScenarioAnchorTarget::Waypoint { id } => ("waypoint", id.as_str()),
        OsmScenarioAnchorTarget::AgentSpawn { id } => ("agent_spawn", id.as_str()),
        OsmScenarioAnchorTarget::ConnectorFrom { id } => ("connector_from", id.as_str()),
        OsmScenarioAnchorTarget::ConnectorTo { id } => ("connector_to", id.as_str()),
    }
}

/// A scenario path as the anchor manifest accepts it: not blank, relative,
/// and made of normal components only.
pub open spec fn is_anchor_scenario_path(s: Seq<char>) -> bool {
    !is_blank(s) && is_normal_relative_path(s)
}

pub open spec fn anchor_id_repeats(xs: Seq<OsmScenarioCoordinateAnchor>, i: int) -> bool {
    exists|j: int| 0 <= j < i && #[trigger] xs[j].id@ == xs[i].id@
}

pub open spec fn target_repeats(xs: Seq<OsmScenarioCoordinateAnchor>, i: int) -> bool {
    exists|j: int|
        0 <= j < i && #[trigger] target_kind(xs[j].target) == target_kind(xs[i].target)
            && target_id(xs[j].target) == target_id(xs[i].target)
}

pub open spec fn source_reference_issues(
    path: Seq<char>,
    object_id: i64,
    category: Seq<char>,
    node_id: Option<i64>,
) -> Seq<IssueText> {
    only_if(object_id <= 0, (path + ".source.object_id"@, "must be greater than zero"@))
        + only_if(is_blank(category), (path + ".source.category"@, "must not be empty"@))
        + only_if(
        node_id is Some && node_id->0 <= 0,
        (path + ".source.node_id"@, "must be greater than zero"@),
    )
}

pub open spec fn source_issues(s: OsmScenarioAnchorSource, path: Seq<char>) -> Seq<IssueText> {
    match s {
        OsmScenarioAnchorSource::NodeFeature { object_id, category } => source_reference_issues(
            path,
            object_id,
            category@,
            None,
        ),
        OsmScenarioAnchorSource::WayNode { object_id, node_id, category } => source_reference_issues(
            path,
            object_id,
            category@,
            Some(node_id),
        ),
    }
}

pub open spec fn anchor_entry_issues(xs: Seq<OsmScenarioCoordinateAnchor>, i: nat) -> Seq<IssueText> {
    let a = xs[i as int];
    let path = indexed("anchors"@, i, Seq::empty());
    only_if(!is_safe_identifier_text(a.id@), (path + ".id"@, "must be a safe identifier"@))
        + only_if(anchor_id_repeats(xs, i as int), (path + ".id"@, "must be unique"@))
        + only_if(is_blank(a.rationale@), (path + ".rationale"@, "must not be empty"@))
        + only_if(is_blank(target_id(a.target)), (path + ".target.id"@, "must not be empty"@))
        + only_if(
        target_repeats(xs, i as int),
        (path + ".target"@, "must not be anchored more than once"@),
    ) + source_issues(a.source, path)
}

pub open spec fn anchor_entries_issues(xs: Seq<OsmScenarioCoordinateAnchor>, n: nat) -> Seq<
    IssueText,
>
    decreases n,
{
    if n == 0 {
        Seq::empty()
    } else {
        anchor_entries_issues(xs, (n - 1) as nat) + anchor_entry_issues(xs, (n - 1) as nat)
    }
}

pub open spec fn anchor_header_issues(m: OsmScenarioAnchorManifest) -> Seq<IssueText> {
    only_if(m.schema_version@ != "0.1"@, ("schema_version"@, "must be `0.1`"@)) + only_if(
        is_blank(m.name@),
        ("name"@, "must not be empty"@),
    ) + only_if(is_blank(m.description@), ("description"@, "must not be empty"@)) + only_if(
        is_blank(m.scenario_source@),
        ("scenario_source"@, "must not be empty"@),
    ) + only_if(is_blank(m.claim_boundary@), ("claim_boundary"@, "must not be empty"@))
        + only_if(
        !is_anchor_scenario_path(m.scenario_source@),
        ("scenario_source"@, relative_path_message()),
    ) + only_if(m.anchors@.len() == 0, ("anchors"@, "must not be empty"@))
}

/// Every problem of an anchor manifest, in the order they are reported.
pub open spec fn anchor_manifest_issues(m: OsmScenarioAnchorManifest) -> Seq<IssueText> {
    anchor_header_issues(m) + anchor_entries_issues(m.anchors@, m.anchors@.len())
}

fn with_suffix(path: &str, suffix: &str) -> (r: String)
    ensures
        r@ == path@ + suffix@,
{
    let mut out = path.to_owned();
    append_text(&mut out, suffix);
    out
}

fn check_source_reference(
    issues: &mut Vec<Issue>,
    path: &str,
    object_id: i64,
    category: &str,
    node_id: Option<i64>,
)
    ensures
        issue_texts(final(issues)@) == issue_texts(old(issues)@) + source_reference_issues(
            path@,
            object_id,
            category@,
            node_id,
        ),
{
    let ghost start = issue_texts(issues@);
    let a0 = push_issue(
        issues,
        object_id <= 0,
        with_suffix(path, ".source.object_id"),
        msg("must be greater than zero"),
    );
    let a1 = push_step(
        issues,
        is_blank_text(category),
        with_suffix(path, ".source.category"),
        msg("must not be empty"),
        Ghost(start),
        a0,
    );
    let bad_node = match node_id {
        Some(n) => n <= 0,
        None => false,
    };
    let a2 = push_step(
        issues,
        bad_node,
        with_suffix(path, ".source.node_id"),
        msg("must be greater than zero"),
        Ghost(start),
        a1,
    );
    proof {
        assert(a2@ == source_reference_issues(path@, object_id, category@, node_id));
    }
}

/// Record the problems of an anchor's source reference under `path`.
pub fn validate_anchor_source_reference(
    errors: &mut Vec<OsmScenarioAnchorValidationError>,
    path: &str,
    object_id: i64,
    category: &str,
    node_id: Option<i64>,
)
    ensures
        anchor_issue_texts(final(errors)@) == anchor_issue_texts(old(errors)@)
            + source_reference_issues(path@, object_id, category@, node_id),
{
    let mut issues: Vec<Issue> = Vec::new();
    proof {
        reveal(issue_texts);
        assert(issue_texts(issues@) =~= Seq::empty());
    }
    check_source_reference(&mut issues, path, object_id, category, node_id);
    proof {
        assert(issue_texts(issues@) =~= source_reference_issues(path@, object_id, category@, node_id));
    }
    append_errors(errors, issues);
}

fn append_errors(errors: &mut Vec<OsmScenarioAnchorValidationError>, issues: Vec<Issue>)
    ensures
        anchor_issue_texts(final(errors)@) == anchor_issue_texts(old(errors)@) + issue_texts(
            issues@,
        ),
{
    let ghost before = errors@;
    let mut i: usize = 0;
    while i < issues.len()
        invariant
            i <= issues@.len(),
            errors@.len() == before.len() + i,
            forall|j: int| 0 <= j < before.len() ==> errors@[j] == before[j],
            forall|j: int|
                0 <= j < i ==> (#[trigger] errors@[before.len() + j])@ == issues@[j]@,
        decreases issues@.len() - i,
    {
        errors.push(OsmScenarioAnchorValidationError {
            path: issues[i].path.clone(),
            message: issues[i].message.clone(),
        });
        i += 1;
    }
    proof {
        lemma_issue_texts_len(issues@);
        assert forall|j: int| 0 <= j < errors@.len() implies anchor_issue_texts(errors@)[j] == (
        anchor_issue_texts(before) + issue_texts(issues@))[j] by {
            if j >= before.len() {
                lemma_issue_texts_index(issues@, j - before.len());
                assert(errors@[before.len() + (j - before.len())] == errors@[j]);
            }
        }
        assert(anchor_issue_texts(errors@) =~= anchor_issue_texts(before) + issue_texts(issues@));
    }
}

fn anchor_id_seen(xs: &Vec<OsmScenarioCoordinateAnchor>, i: usize) -> (r: bool)
    requires
        i < xs@.len(),
    ensures
        r == anchor_id_repeats(xs@, i as int),
{
    let mut j: usize = 0;
    while j < i
        invariant
            i < xs@.len(),
            j <= i,
            forall|k: int| 0 <= k < j ==> xs@[k].id@ != xs@[i as int].id@,
        decreases i - j,
    {
        if text_eq(xs[j].id.as_str(), xs[i].id.as_str()) {
            return true;
        }
        j += 1;
    }
    false
}

fn target_seen(xs: &Vec<OsmScenarioCoordinateAnchor>, i: usize) -> (r: bool)
    requires
        i < xs@.len(),
    ensures
        r == target_repeats(xs@, i as int),
{
    let (kind, id) = anchor_target_identity(&xs[i].target);
    let mut j: usize = 0;
    while j < i
        invariant
            i < xs@.len(),
            j <= i,
            kind@ == target_kind(xs@[i as int].target),
            id@ == target_id(xs@[i as int].target),
            forall|k: int|
                0 <= k < j ==> !(target_kind(xs@[k].target) == kind@ && target_id(xs@[k].target)
                    == id@),
        decreases i - j,
    {
        let (other_kind, other_id) = anchor_target_identity(&xs[j].target);
        if text_eq(other_kind, kind) && text_eq(other_id, id) {
            return true;
        }
        j += 1;
    }
    false
}

fn check_anchor(xs: &Vec<OsmScenarioCoordinateAnchor>, i: usize, issues: &mut Vec<Issue>)
    requires
        i < xs@.len(),
    ensures
        issue_texts(final(issues)@) == issue_texts(old(issues)@) + anchor_entry_issues(
            xs@,
            i as nat,
        ),
{
    let ghost start = issue_texts(issues@);
    let a = &xs[i];
    let path = indexed_path("anchors", i, "");
    proof {
        reveal_strlit("");
        assert(""@ =~= Seq::<char>::empty());
    }
    let a0 = push_issue(
        issues,
        !is_safe_identifier(a.id.as_str()),
        with_suffix(path.as_str(), ".id"),
        msg("must be a safe identifier"),
    );
    let a1 = push_step(
        issues,
        anchor_id_seen(xs, i),
        with_suffix(path.as_str(), ".id"),
        msg("must be unique"),
        Ghost(start),
        a0,
    );
    let a2 = push_step(
        issues,
        is_blank_text(a.rationale.as_str()),
        with_suffix(path.as_str(), ".rationale"),
        msg("must not be empty"),
        Ghost(start),
        a1,
    );
    let (_, target) = anchor_target_identity(&a.target);
    let a3 = push_step(
        issues,
        is_blank_text(target),
        with_suffix(path.as_str(), ".target.id"),
        msg("must not be empty"),
        Ghost(start),
        a2,
    );
    let a4 = push_step(
        issues,
        target_seen(xs, i),
        with_suffix(path.as_str(), ".target"),
        msg("must not be anchored more than once"),
        Ghost(start),
        a3,
    );
    match &a.source {
        OsmScenarioAnchorSource::NodeFeature { object_id, category } => {
            check_source_reference(issues, path.as_str(), *object_id, category.as_str(), None);
        },
        OsmScenarioAnchorSource::WayNode { object_id, node_id, category } => {
            check_source_reference(
                issues,
                path.as_str(),
                *object_id,
                category.as_str(),
                Some(*node_id),
            );
        },
    }
    proof {
        vstd::seq_lib::lemma_concat_associative(start, a4@, source_issues(a.source, path@));
        assert(a4@ + source_issues(a.source, path@) == anchor_entry_issues(xs@, i as nat));
    }
}

fn check_anchor_header(m: &OsmScenarioAnchorManifest, issues: &mut Vec<Issue>)
    ensures
        issue_texts(final(issues)@) == issue_texts(old(issues)@) + anchor_header_issues(*m),
{
    let ghost start = issue_texts(issues@);
    let a0 = push_issue(
        issues,
        !text_eq(m.schema_version.as_str(), "0.1"),
        msg("schema_version"),
        msg("must be `0.1`"),
    );
    let a1 = push_step(issues, is_blank_text(m.name.as_str()), msg("name"), msg("must not be empty"), Ghost(start), a0);
    let a2 = push_step(
        issues,
        is_blank_text(m.description.as_str()),
        msg("description"),
        msg("must not be empty"),
        Ghost(start),
        a1,
    );
    let a3 = push_step(
        issues,
        is_blank_text(m.scenario_source.as_str()),
        msg("scenario_source"),
        msg("must not be empty"),
        Ghost(start),
        a2,
    );
    let a4 = push_step(
        issues,
        is_blank_text(m.claim_boundary.as_str()),
        msg("claim_boundary"),
        msg("must not be empty"),
        Ghost(start),
        a3,
    );
    let a5 = push_step(
        issues,
        !(!is_blank_text(m.scenario_source.as_str()) && normal_relative_path(
            m.scenario_source.as_str(),
        )),
        msg("scenario_source"),
        msg("must be a non-empty relative path without `.` or `..` components"),
        Ghost(start),
        a4,
    );
    let a6 = push_step(
        issues,
        m.anchors.len() == 0,
        msg("anchors"),
        msg("must not be empty"),
        Ghost(start),
        a5,
    );
    proof {
        assert(a6@ == anchor_header_issues(*m));
    }
}

/// Validate a static OSM scenario-anchor manifest before resolving its source
/// points or scenario targets. This does not inspect a map or create a run.
///
/// Every problem is reported, in field order; the manifest is accepted exactly
/// when there is none.
pub fn validate_osm_scenario_anchor_manifest(manifest: &OsmScenarioAnchorManifest) -> (r: Result<
    (),
    Vec<OsmScenarioAnchorValidationError>,
>)
    ensures
        r is Ok <==> anchor_manifest_issues(*manifest).len() == 0,
        r matches Err(errors) ==> anchor_issue_texts(errors@) == anchor_manifest_issues(*manifest),
{
    let mut issues: Vec<Issue> = Vec::new();
    proof {
        reveal(issue_texts);
        assert(issue_texts(issues@) =~= Seq::empty());
    }
    check_anchor_header(manifest, &mut issues);
    let ghost t0 = anchor_header_issues(*manifest);
    let ghost xs = manifest.anchors@;
    proof {
        assert(issue_texts(issues@) =~= t0);
    }
    let mut i: usize = 0;
    while i < manifest.anchors.len()
        invariant
            xs == manifest.anchors@,
            i <= xs.len(),
            issue_texts(issues@) == t0 + anchor_entries_issues(xs, i as nat),
        decreases xs.len() - i,
    {
        check_anchor(&manifest.anchors, i, &mut issues);
        proof {
            vstd::seq_lib::lemma_concat_associative(
                t0,
                anchor_entries_issues(xs, i as nat),
                anchor_entry_issues(xs, i as nat),
            );
        }
        i += 1;
    }
    proof {
        lemma_issue_texts_len(issues@);
    }
    if issues.len() == 0 {
        Ok(())
    } else {
        let mut errors: Vec<OsmScenarioAnchorValidationError> = Vec::new();
        append_errors(&mut errors, issues);
        proof {
            assert(anchor_issue_texts(Seq::<OsmScenarioAnchorValidationError>::empty()) =~= Seq::empty());
            assert(anchor_issue_texts(errors@) =~= anchor_manifest_issues(*manifest));
        }
        Err(errors)
    }
}

/// Some issue of `issues` carries `message`.
pub open spec fn reports_message(issues: Seq<IssueText>, message: Seq<char>) -> bool {
    exists|k: int| 0 <= k < issues.len() && (#[trigger] issues[k]).1 == message
}

proof fn lemma_reports_concat(a: Seq<IssueText>, b: Seq<IssueText>, message: Seq<char>)
    ensures
        reports_message(a + b, message) <==> reports_message(a, message) || reports_message(b, message),
{
    let c = a + b;
    if reports_message(c, message) {
        let k = choose|k: int| 0 <= k < c.len() && (#[trigger] c[k]).1 == message;
        if k < a.len() {
            assert(a[k] == c[k]);
        } else {
            assert(b[k - a.len()] == c[k]);
        }
    }
    if reports_message(a, message) {
        let k = choose|k: int| 0 <= k < a.len() && (#[trigger] a[k]).1 == message;
        assert(c[k] == a[k]);
    }
    if reports_message(b, message) {
        let k = choose|k: int| 0 <= k < b.len() && (#[trigger] b[k]).1 == message;
        assert(c[k + a.len()] == b[k]);
    }
}

proof fn lemma_reports_only_if(flag: bool, item: IssueText, message: Seq<char>)
    ensures
        reports_message(only_if(flag, item), message) <==> flag && item.1 == message,
{
    if flag {
        assert(only_if(flag, item)[0] == item);
    }
}

/// An anchor reports that its target is anchored more than once exactly
/// when an earlier anchor names a scenario element of the same kind and the
/// same id: anchors on distinct ids of one kind, or on one id of distinct
/// kinds, are not repeats.
#[verifier::spinoff_prover]
#[verifier::rlimit(60)]
pub proof fn lemma_repeated_target_reported(xs: Seq<OsmScenarioCoordinateAnchor>, i: nat)
    requires
        i < xs.len(),
    ensures
        reports_message(anchor_entry_issues(xs, i), "must not be anchored more than once"@) <==> exists|j: int|
            0 <= j < i && target_kind(#[trigger] xs[j].target) == target_kind(xs[i as int].target) && target_id(
                xs[j].target,
            ) == target_id(xs[i as int].target),
        (exists|j: int|
            0 <= j < i && target_kind(#[trigger] xs[j].target) == target_kind(xs[i as int].target) && target_id(
                xs[j].target,
            ) == target_id(xs[i as int].target)) ==> anchor_entry_issues(xs, i).contains(
            (indexed("anchors"@, i, Seq::empty()) + ".target"@, "must not be anchored more than once"@),
        ),
{
    let a = xs[i as int];
    let path = indexed("anchors"@, i, Seq::empty());
    let m = "must not be anchored more than once"@;
    let p0 = only_if(!is_safe_identifier_text(a.id@), (path + ".id"@, "must be a safe identifier"@));
    let p1 = only_if(anchor_id_repeats(xs, i as int), (path + ".id"@, "must be unique"@));
    let p2 = only_if(is_blank(a.rationale@), (path + ".rationale"@, "must not be empty"@));
    let p3 = only_if(is_blank(target_id(a.target)), (path + ".target.id"@, "must not be empty"@));
    let p4 = only_if(target_repeats(xs, i as int), (path + ".target"@, m));
    let p5 = source_issues(a.source, path);
    assert(anchor_entry_issues(xs, i) == p0 + p1 + p2 + p3 + p4 + p5);
    reveal_strlit("must not be anchored more than once");
    reveal_strlit("must be a safe identifier");
    reveal_strlit("must be unique");
    reveal_strlit("must not be empty");
    reveal_strlit("must be greater than zero");
    assert(m.len() != "must be a safe identifier"@.len());
    assert(m.len() != "must be unique"@.len());
    assert(m.len() != "must not be empty"@.len());
    assert(m.len() != "must be greater than zero"@.len());
    lemma_reports_concat(p0 + p1 + p2 + p3 + p4, p5, m);
    lemma_reports_concat(p0 + p1 + p2 + p3, p4, m);
    lemma_reports_concat(p0 + p1 + p2, p3, m);
    lemma_reports_concat(p0 + p1, p2, m);
    lemma_reports_concat(p0, p1, m);
    lemma_reports_only_if(!is_safe_identifier_text(a.id@), (path + ".id"@, "must be a safe identifier"@), m);
    lemma_reports_only_if(anchor_id_repeats(xs, i as int), (path + ".id"@, "must be unique"@), m);
    lemma_reports_only_if(is_blank(a.rationale@), (path + ".rationale"@, "must not be empty"@), m);
    lemma_reports_only_if(is_blank(target_id(a.target)), (path + ".target.id"@, "must not be empty"@), m);
    lemma_reports_only_if(target_repeats(xs, i as int), (path + ".target"@, m), m);
    assert(!reports_message(p5, m)) by {
        match a.source {
            OsmScenarioAnchorSource::NodeFeature { object_id, category } => {
                let q0 = only_if(object_id <= 0, (path + ".source.object_id"@, "must be greater than zero"@));
                let q1 = only_if(is_blank(category@), (path + ".source.category"@, "must not be empty"@));
                let q2 = only_if(false, (path + ".source.node_id"@, "must be greater than zero"@));
                assert(p5 == q0 + q1 + q2);
                lemma_reports_concat(q0 + q1, q2, m);
                lemma_reports_concat(q0, q1, m);
                lemma_reports_only_if(object_id <= 0, (path + ".source.object_id"@, "must be greater than zero"@), m);
                lemma_reports_only_if(is_blank(category@), (path + ".source.category"@, "must not be empty"@), m);
                lemma_reports_only_if(false, (path + ".source.node_id"@, "must be greater than zero"@), m);
            },
            OsmScenarioAnchorSource::WayNode { object_id, node_id, category } => {
                let q0 = only_if(object_id <= 0, (path + ".source.object_id"@, "must be greater than zero"@));
                let q1 = only_if(is_blank(category@), (path + ".source.category"@, "must not be empty"@));
                let q2 = only_if(node_id <= 0, (path + ".source.node_id"@, "must be greater than zero"@));
                assert(p5 == q0 + q1 + q2);
                lemma_reports_concat(q0 + q1, q2, m);
                lemma_reports_concat(q0, q1, m);
                lemma_reports_only_if(object_id <= 0, (path + ".source.object_id"@, "must be greater than zero"@), m);
                lemma_reports_only_if(is_blank(category@), (path + ".source.category"@, "must not be empty"@), m);
                lemma_reports_only_if(node_id <= 0, (path + ".source.node_id"@, "must be greater than zero"@), m);
            },
        }
    }
    if target_repeats(xs, i as int) {
        let e = anchor_entry_issues(xs, i);
        let before = p0 + p1 + p2 + p3;
        assert(p4[0] == (path + ".target"@, m));
        assert(e[before.len() as int] == (path + ".target"@, m));
    }
}

} // verus!
