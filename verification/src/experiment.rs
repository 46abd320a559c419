//! Manifest validation for one auditable, uncalibrated authored experiment.
//!
//! Sensitivity studies record explicit numeric alternatives. This contract
//! covers the complementary case: one structural scenario with a stated claim
//! boundary, disclosed assumptions, and optional source-report provenance.

use vstd::prelude::*;
use crate::evidence::relative_path_message;
use crate::issues::{issue_texts, lemma_issue_texts_index, lemma_issue_texts_len, msg, push_issue, push_step, Issue, IssueText};
use crate::text::{
    append_text, indexed, indexed_path, is_blank, is_blank_text, is_https_url, is_https_url_text,
    is_normal_relative_path, is_safe_identifier, is_safe_identifier_text, is_sha256,
    is_sha256_text, normal_relative_path, only_if, owned, text_eq,
};

verus! {

/// How an experiment assumption is justified.
#[derive(Debug, Clone, Copy, PartialEq, Eq, Structural)]
pub enum AssumptionBasis {
    /// A structural modelling choice made by the author.
    StructuralChoice,
    /// An explicit author estimate without an external source.
    AuthorEstimate,
    /// An estimate taken from a documented source.
    DocumentedEstimate,
    /// A measured value taken from a source.
    MeasuredInput,
}

/// A report derived from a source and locked by its content hash.
#[derive(Debug, Clone)]
pub struct SensitivityDerivedReport {
    pub path: String,
    pub sha256: String,
}

/// An open source that informed an assumption. It does not calibrate a run.
#[derive(Debug, Clone)]
pub struct SensitivityReference {
    pub id: String,
    pub citation: String,
    pub url: String,
    pub applicability: String,
    pub limitation: String,
    pub source_sha256: Option<String>,
    pub derived_report: Option<SensitivityDerivedReport>,
}

/// An authored, uncalibrated scenario and the assumptions used to interpret it.
#[derive(Debug, Clone)]
pub struct ExperimentManifest {
    pub schema_version: String,
    pub name: String,
    pub description: String,
    /// Path interpreted by the CLI relative to the manifest file.
    pub scenario_source: String,
    pub trace_every_steps: u32,
    /// At least one disclosed model input or structural choice is required.
    pub assumptions: Vec<ExperimentAssumption>,
    /// Open sources that informed assumptions. They do not calibrate the run.
    pub sources: Vec<SensitivityReference>,
    /// Optional source-specific verification declarations (schema 0.2).
    pub source_attestations: Vec<ExperimentSourceAttestation>,
    /// The author's intended-use and interpretation boundary.
    pub claim_boundary: String,
}

/// An external-source check that must succeed before an experiment artifact is
/// created. It documents source provenance; it does not validate the scenario.
#[derive(Debug, Clone)]
pub enum ExperimentSourceAttestation {
    /// Rebuild a content-locked OSM observation from its XML, then rebuild the
    /// source's declared local-coordinate projection from that observation.
    OsmLocalProjection {
        source_id: String,
        catalog_path: String,
        data_root: String,
        observation_report_path: String,
    },
    /// Reconstruct selected scenario-point coordinates from an already
    /// attested local OSM projection.
    OsmScenarioAnchor {
        source_id: String,
        projection_source_id: String,
        anchor_manifest_path: String,
    },
}

pub open spec fn attestation_source_id(a: ExperimentSourceAttestation) -> Seq<char> {
    match a {
        ExperimentSourceAttestation::OsmLocalProjection { source_id, .. } => source_id@,
        ExperimentSourceAttestation::OsmScenarioAnchor { source_id, .. } => source_id@,
    }
}

impl ExperimentSourceAttestation {
    /// The id of the attested source.
    pub fn source_id(&self) -> (r: &str)
        ensures
            r@ == attestation_source_id(*self),
    {
        match self {
            ExperimentSourceAttestation::OsmLocalProjection { source_id, .. } => source_id.as_str(),
            ExperimentSourceAttestation::OsmScenarioAnchor { source_id, .. } => source_id.as_str(),
        }
    }
}

/// The trace cadence used when a manifest does not state one.
pub fn default_trace_every_steps() -> (r: u32)
    ensures
        r == 10,
{
    10
}

/// One explicit authored input or structural choice behind an experiment.
#[derive(Debug, Clone)]
pub struct ExperimentAssumption {
    pub id: String,
    /// A precise scenario field, element, or structural choice the reader can review.
    pub subject: String,
    pub basis: AssumptionBasis,
    pub rationale: String,
    /// Identifiers from the manifest's `sources` array.
    pub source_ids: Vec<String>,
}

/// One field-level problem: the field's path and what is wrong with it.
#[derive(Debug, Clone)]
pub struct ExperimentValidationError {
    pub path: String,
    pub message: String,
}

impl View for ExperimentValidationError {
    type V = IssueText;

    open spec fn view(&self) -> IssueText {
        (self.path@, self.message@)
    }
}

impl ExperimentValidationError {
    /// The `path: message` rendering of the error.
    pub fn to_text(&self) -> (r: String)
        ensures
            r@ == self.path@ + seq![':', ' '] + self.message@,
    {
        let mut out = self.path.clone();
        out.push(':');
        out.push(' ');
        append_text(&mut out, self.message.as_str());
        out
    }
}

pub open spec fn experiment_issue_texts(errors: Seq<ExperimentValidationError>) -> Seq<IssueText> {
    errors.map_values(|e: ExperimentValidationError| e@)
}

pub open spec fn backticked(prefix: Seq<char>, value: Seq<char>) -> Seq<char> {
    prefix + value + seq!['`']
}

pub open spec fn safe_identifier_message() -> Seq<char> {
    "must be a safe identifier"@
}

// ---- sources ----
pub open spec fn source_id_repeats(srcs: Seq<SensitivityReference>, i: int) -> bool {
    exists|j: int| 0 <= j < i && #[trigger] srcs[j].id@ == srcs[i].id@
}

pub open spec fn is_source_id(srcs: Seq<SensitivityReference>, id: Seq<char>) -> bool {
    exists|j: int| 0 <= j < srcs.len() && #[trigger] srcs[j].id@ == id
}

pub open spec fn source_issues(srcs: Seq<SensitivityReference>, i: nat) -> Seq<IssueText> {
    let s = srcs[i as int];
    let p = "sources"@;
    only_if(
        !is_safe_identifier_text(s.id@),
        (indexed(p, i, ".id"@), safe_identifier_message()),
    ) + only_if(source_id_repeats(srcs, i as int), (indexed(p, i, ".id"@), "must be unique"@))
        + only_if(
        is_blank(s.citation@) || is_blank(s.applicability@) || is_blank(s.limitation@),
        (
            indexed(p, i, Seq::empty()),
            "citation, applicability, and limitation must not be empty"@,
        ),
    ) + only_if(
        !is_https_url_text(s.url@),
        (indexed(p, i, ".url"@), "must be a non-empty HTTPS URL"@),
    ) + only_if(
        s.source_sha256 is Some && !is_sha256_text(s.source_sha256->0@),
        (
            indexed(p, i, ".source_sha256"@),
            "must be a SHA-256 hexadecimal digest when provided"@,
        ),
    ) + only_if(
        s.derived_report is Some && !is_normal_relative_path(s.derived_report->0.path@),
        (indexed(p, i, ".derived_report.path"@), relative_path_message()),
    ) + only_if(
        s.derived_report is Some && !is_sha256_text(s.derived_report->0.sha256@),
        (indexed(p, i, ".derived_report.sha256"@), "must be a SHA-256 hexadecimal digest"@),
    )
}

pub open spec fn sources_issues(srcs: Seq<SensitivityReference>, n: nat) -> Seq<IssueText>
    decreases n,
{
    if n == 0 {
        Seq::empty()
    } else {
        sources_issues(srcs, (n - 1) as nat) + source_issues(srcs, (n - 1) as nat)
    }
}

// ---- assumptions ----
pub open spec fn needs_source(b: AssumptionBasis) -> bool {
    b == AssumptionBasis::DocumentedEstimate || b == AssumptionBasis::MeasuredInput
}

pub open spec fn assumption_id_repeats(xs: Seq<ExperimentAssumption>, i: int) -> bool {
    exists|j: int| 0 <= j < i && #[trigger] xs[j].id@ == xs[i].id@
}

pub open spec fn reference_issues(
    srcs: Seq<SensitivityReference>,
    path: Seq<char>,
    ids: Seq<String>,
    k: nat,
) -> Seq<IssueText> {
    let id = ids[k as int]@;
    only_if(!is_safe_identifier_text(id), (path, "must contain only safe identifiers"@))
        + only_if(
        exists|j: int| 0 <= j < k && #[trigger] ids[j]@ == id,
        (path, backticked("repeats source `"@, id)),
    ) + only_if(!is_source_id(srcs, id), (path, backticked("references unknown source `"@, id)))
}

pub open spec fn references_issues(
    srcs: Seq<SensitivityReference>,
    path: Seq<char>,
    ids: Seq<String>,
    n: nat,
) -> Seq<IssueText>
    decreases n,
{
    if n == 0 {
        Seq::empty()
    } else {
        references_issues(srcs, path, ids, (n - 1) as nat) + reference_issues(
            srcs,
            path,
            ids,
            (n - 1) as nat,
        )
    }
}

pub open spec fn assumption_issues(
    srcs: Seq<SensitivityReference>,
    xs: Seq<ExperimentAssumption>,
    i: nat,
) -> Seq<IssueText> {
    let a = xs[i as int];
    let p = "assumptions"@;
    only_if(
        !is_safe_identifier_text(a.id@),
        (indexed(p, i, ".id"@), safe_identifier_message()),
    ) + only_if(assumption_id_repeats(xs, i as int), (indexed(p, i, ".id"@), "must be unique"@))
        + only_if(
        is_blank(a.subject@) || is_blank(a.rationale@),
        (indexed(p, i, Seq::empty()), "subject and rationale must not be empty"@),
    ) + only_if(
        needs_source(a.basis) && a.source_ids@.len() == 0,
        (
            indexed(p, i, ".source_ids"@),
            "must name at least one source for documented_estimate or measured_input"@,
        ),
    ) + references_issues(srcs, indexed(p, i, ".source_ids"@), a.source_ids@, a.source_ids@.len())
}

pub open spec fn assumptions_issues(
    srcs: Seq<SensitivityReference>,
    xs: Seq<ExperimentAssumption>,
    n: nat,
) -> Seq<IssueText>
    decreases n,
{
    if n == 0 {
        Seq::empty()
    } else {
        assumptions_issues(srcs, xs, (n - 1) as nat) + assumption_issues(srcs, xs, (n - 1) as nat)
    }
}

// ---- attestations ----
/// The index of the first source with this id, searching from `k`.
pub open spec fn find_source_from(srcs: Seq<SensitivityReference>, id: Seq<char>, k: int) -> Option<
    int,
>
    decreases srcs.len() - k,
{
    if k < 0 || k >= srcs.len() {
        None
    } else if srcs[k].id@ == id {
        Some(k)
    } else {
        find_source_from(srcs, id, k + 1)
    }
}

pub open spec fn find_source(srcs: Seq<SensitivityReference>, id: Seq<char>) -> Option<int> {
    find_source_from(srcs, id, 0)
}

pub open spec fn attested_before(atts: Seq<ExperimentSourceAttestation>, i: int) -> bool {
    exists|j: int|
        0 <= j < i && #[trigger] attestation_source_id(atts[j]) == attestation_source_id(atts[i])
}

pub open spec fn kind_issues(
    a: ExperimentSourceAttestation,
    s: SensitivityReference,
    i: nat,
) -> Seq<IssueText> {
    let p = "source_attestations"@;
    match a {
        ExperimentSourceAttestation::OsmLocalProjection {
            catalog_path,
            data_root,
            observation_report_path,
            ..
        } => only_if(
            !is_normal_relative_path(catalog_path@),
            (indexed(p, i, ".catalog_path"@), relative_path_message()),
        ) + only_if(
            !is_normal_relative_path(data_root@),
            (indexed(p, i, ".data_root"@), relative_path_message()),
        ) + only_if(
            !is_normal_relative_path(observation_report_path@),
            (indexed(p, i, ".observation_report_path"@), relative_path_message()),
        ),
        ExperimentSourceAttestation::OsmScenarioAnchor {
            projection_source_id,
            anchor_manifest_path,
            ..
        } => only_if(
            s.source_sha256 is None,
            (
                indexed(p, i, ".source_id"@),
                "must reference a source with source_sha256 for osm_scenario_anchor"@,
            ),
        ) + only_if(
            !is_safe_identifier_text(projection_source_id@),
            (indexed(p, i, ".projection_source_id"@), safe_identifier_message()),
        ) + only_if(
            !is_normal_relative_path(anchor_manifest_path@),
            (indexed(p, i, ".anchor_manifest_path"@), relative_path_message()),
        ),
    }
}

pub open spec fn attestation_issues(
    srcs: Seq<SensitivityReference>,
    atts: Seq<ExperimentSourceAttestation>,
    i: nat,
) -> Seq<IssueText> {
    let a = atts[i as int];
    let sid = attestation_source_id(a);
    let p = indexed("source_attestations"@, i, ".source_id"@);
    only_if(!is_safe_identifier_text(sid), (p, safe_identifier_message())) + only_if(
        attested_before(atts, i as int),
        (p, "must not be attested more than once"@),
    ) + match find_source(srcs, sid) {
        None => seq![(p, backticked("references unknown source `"@, sid))],
        Some(k) => only_if(
            srcs[k].derived_report is None,
            (p, "must reference a source with a derived_report"@),
        ) + kind_issues(a, srcs[k], i),
    }
}

pub open spec fn attestations_issues(
    srcs: Seq<SensitivityReference>,
    atts: Seq<ExperimentSourceAttestation>,
    n: nat,
) -> Seq<IssueText>
    decreases n,
{
    if n == 0 {
        Seq::empty()
    } else {
        attestations_issues(srcs, atts, (n - 1) as nat) + attestation_issues(
            srcs,
            atts,
            (n - 1) as nat,
        )
    }
}

/// Some local-projection attestation with a known source attests `id`.
pub open spec fn is_local_projection_source(
    srcs: Seq<SensitivityReference>,
    atts: Seq<ExperimentSourceAttestation>,
    id: Seq<char>,
) -> bool {
    exists|j: int|
        0 <= j < atts.len() && (#[trigger] atts[j]) is OsmLocalProjection
            && attestation_source_id(atts[j]) == id && find_source(srcs, id) is Some
}

pub open spec fn dependency_issues(
    srcs: Seq<SensitivityReference>,
    atts: Seq<ExperimentSourceAttestation>,
    i: nat,
) -> Seq<IssueText> {
    let a = atts[i as int];
    let sid = attestation_source_id(a);
    let p = indexed("source_attestations"@, i, ".projection_source_id"@);
    match a {
        ExperimentSourceAttestation::OsmScenarioAnchor { projection_source_id, .. } => if find_source(
            srcs,
            sid,
        ) is Some {
            only_if(sid == projection_source_id@, (p, "must differ from source_id"@)) + only_if(
                !is_local_projection_source(srcs, atts, projection_source_id@),
                (p, "must name the source_id of an osm_local_projection attestation"@),
            )
        } else {
            Seq::empty()
        },
        _ => Seq::empty(),
    }
}

pub open spec fn dependencies_issues(
    srcs: Seq<SensitivityReference>,
    atts: Seq<ExperimentSourceAttestation>,
    n: nat,
) -> Seq<IssueText>
    decreases n,
{
    if n == 0 {
        Seq::empty()
    } else {
        dependencies_issues(srcs, atts, (n - 1) as nat) + dependency_issues(
            srcs,
            atts,
            (n - 1) as nat,
        )
    }
}

pub open spec fn header_issues(m: ExperimentManifest) -> Seq<IssueText> {
    only_if(
        m.schema_version@ != "0.1"@ && m.schema_version@ != "0.2"@,
        ("schema_version"@, "must be `0.1` or `0.2`"@),
    ) + only_if(
        m.schema_version@ == "0.1"@ && m.source_attestations@.len() != 0,
        ("source_attestations"@, "requires schema_version `0.2`"@),
    ) + only_if(is_blank(m.name@), ("name"@, "must not be empty"@)) + only_if(
        is_blank(m.description@),
        ("description"@, "must not be empty"@),
    ) + only_if(is_blank(m.scenario_source@), ("scenario_source"@, "must not be empty"@))
        + only_if(is_blank(m.claim_boundary@), ("claim_boundary"@, "must not be empty"@))
        + only_if(
        !is_normal_relative_path(m.scenario_source@),
        ("scenario_source"@, relative_path_message()),
    ) + only_if(
        m.trace_every_steps == 0,
        ("trace_every_steps"@, "must be greater than zero"@),
    ) + only_if(m.assumptions@.len() == 0, ("assumptions"@, "must not be empty"@))
}

/// Every problem of an experiment manifest, in the order they are reported.
pub open spec fn experiment_issues(m: ExperimentManifest) -> Seq<IssueText> {
    let srcs = m.sources@;
    let atts = m.source_attestations@;
    header_issues(m) + sources_issues(srcs, srcs.len()) + assumptions_issues(
        srcs,
        m.assumptions@,
        m.assumptions@.len(),
    ) + attestations_issues(srcs, atts, atts.len()) + dependencies_issues(srcs, atts, atts.len())
}

fn backticked_message(prefix: &str, value: &str) -> (r: String)
    ensures
        r@ == backticked(prefix@, value@),
{
    let mut out = owned(prefix);
    append_text(&mut out, value);
    out.push('`');
    out
}

fn check_header(m: &ExperimentManifest, issues: &mut Vec<Issue>)
    ensures
        issue_texts(final(issues)@) == issue_texts(old(issues)@) + header_issues(*m),
{
    let ghost start = issue_texts(issues@);
    let v01 = text_eq(m.schema_version.as_str(), "0.1");
    let v02 = text_eq(m.schema_version.as_str(), "0.2");
    let a0 = push_issue(issues, !v01 && !v02, msg("schema_version"), msg("must be `0.1` or `0.2`"));
    let a1 = push_step(
        issues,
        v01 && m.source_attestations.len() != 0,
        msg("source_attestations"),
        msg("requires schema_version `0.2`"),
        Ghost(start),
        a0,
    );
    let a2 = push_step(issues, is_blank_text(m.name.as_str()), msg("name"), msg("must not be empty"), Ghost(start), a1);
    let a3 = push_step(
        issues,
        is_blank_text(m.description.as_str()),
        msg("description"),
        msg("must not be empty"),
        Ghost(start),
        a2,
    );
    let a4 = push_step(
        issues,
        is_blank_text(m.scenario_source.as_str()),
        msg("scenario_source"),
        msg("must not be empty"),
        Ghost(start),
        a3,
    );
    let a5 = push_step(
        issues,
        is_blank_text(m.claim_boundary.as_str()),
        msg("claim_boundary"),
        msg("must not be empty"),
        Ghost(start),
        a4,
    );
    let a6 = push_step(
        issues,
        !normal_relative_path(m.scenario_source.as_str()),
        msg("scenario_source"),
        msg("must be a non-empty relative path without `.` or `..` components"),
        Ghost(start),
        a5,
    );
    let a7 = push_step(
        issues,
        m.trace_every_steps == 0,
        msg("trace_every_steps"),
        msg("must be greater than zero"),
        Ghost(start),
        a6,
    );
    let a8 = push_step(
        issues,
        m.assumptions.len() == 0,
        msg("assumptions"),
        msg("must not be empty"),
        Ghost(start),
        a7,
    );
    proof {
        assert(a8@ == header_issues(*m));
    }
}

fn source_id_exists(srcs: &Vec<SensitivityReference>, id: &str) -> (r: bool)
    ensures
        r == is_source_id(srcs@, id@),
{
    let mut j: usize = 0;
    while j < srcs.len()
        invariant
            j <= srcs@.len(),
            forall|k: int| 0 <= k < j ==> srcs@[k].id@ != id@,
        decreases srcs@.len() - j,
    {
        if text_eq(srcs[j].id.as_str(), id) {
            return true;
        }
        j += 1;
    }
    false
}

fn source_id_seen(srcs: &Vec<SensitivityReference>, i: usize) -> (r: bool)
    requires
        i < srcs@.len(),
    ensures
        r == source_id_repeats(srcs@, i as int),
{
    let mut j: usize = 0;
    while j < i
        invariant
            i < srcs@.len(),
            j <= i,
            forall|k: int| 0 <= k < j ==> srcs@[k].id@ != srcs@[i as int].id@,
        decreases i - j,
    {
        if text_eq(srcs[j].id.as_str(), srcs[i].id.as_str()) {
            return true;
        }
        j += 1;
    }
    false
}

fn check_source(srcs: &Vec<SensitivityReference>, i: usize, issues: &mut Vec<Issue>)
    requires
        i < srcs@.len(),
    ensures
        issue_texts(final(issues)@) == issue_texts(old(issues)@) + source_issues(srcs@, i as nat),
{
    let ghost start = issue_texts(issues@);
    let s = &srcs[i];
    let a0 = push_issue(
        issues,
        !is_safe_identifier(s.id.as_str()),
        indexed_path("sources", i, ".id"),
        msg("must be a safe identifier"),
    );
    let a1 = push_step(
        issues,
        source_id_seen(srcs, i),
        indexed_path("sources", i, ".id"),
        msg("must be unique"),
        Ghost(start),
        a0,
    );
    let a2 = push_step(
        issues,
        is_blank_text(s.citation.as_str()) || is_blank_text(s.applicability.as_str())
            || is_blank_text(s.limitation.as_str()),
        indexed_path("sources", i, ""),
        msg("citation, applicability, and limitation must not be empty"),
        Ghost(start),
        a1,
    );
    let a3 = push_step(
        issues,
        !is_https_url(s.url.as_str()),
        indexed_path("sources", i, ".url"),
        msg("must be a non-empty HTTPS URL"),
        Ghost(start),
        a2,
    );
    let bad_hash = match &s.source_sha256 {
        Some(h) => !is_sha256(h.as_str()),
        None => false,
    };
    let a4 = push_step(
        issues,
        bad_hash,
        indexed_path("sources", i, ".source_sha256"),
        msg("must be a SHA-256 hexadecimal digest when provided"),
        Ghost(start),
        a3,
    );
    let (bad_path, bad_digest) = match &s.derived_report {
        Some(r) => (!normal_relative_path(r.path.as_str()), !is_sha256(r.sha256.as_str())),
        None => (false, false),
    };
    let a5 = push_step(
        issues,
        bad_path,
        indexed_path("sources", i, ".derived_report.path"),
        msg("must be a non-empty relative path without `.` or `..` components"),
        Ghost(start),
        a4,
    );
    let a6 = push_step(
        issues,
        bad_digest,
        indexed_path("sources", i, ".derived_report.sha256"),
        msg("must be a SHA-256 hexadecimal digest"),
        Ghost(start),
        a5,
    );
    proof {
        reveal_strlit("");
        assert(""@ =~= Seq::<char>::empty());
        assert(a6@ == source_issues(srcs@, i as nat));
    }
}

fn check_reference(
    srcs: &Vec<SensitivityReference>,
    path: &str,
    ids: &Vec<String>,
    k: usize,
    issues: &mut Vec<Issue>,
)
    requires
        k < ids@.len(),
    ensures
        issue_texts(final(issues)@) == issue_texts(old(issues)@) + reference_issues(
            srcs@,
            path@,
            ids@,
            k as nat,
        ),
{
    let ghost start = issue_texts(issues@);
    let id = ids[k].as_str();
    let a0 = push_issue(
        issues,
        !is_safe_identifier(id),
        owned(path),
        msg("must contain only safe identifiers"),
    );
    let mut repeated = false;
    let mut j: usize = 0;
    while j < k
        invariant
            k < ids@.len(),
            id@ == ids@[k as int]@,
            j <= k,
            repeated == exists|q: int| 0 <= q < j && #[trigger] ids@[q]@ == id@,
        decreases k - j,
    {
        if text_eq(ids[j].as_str(), id) {
            repeated = true;
        }
        j += 1;
    }
    let a1 = push_step(
        issues,
        repeated,
        owned(path),
        backticked_message("repeats source `", id),
        Ghost(start),
        a0,
    );
    let a2 = push_step(
        issues,
        !source_id_exists(srcs, id),
        owned(path),
        backticked_message("references unknown source `", id),
        Ghost(start),
        a1,
    );
    proof {
        assert(a2@ == reference_issues(srcs@, path@, ids@, k as nat));
    }
}

fn assumption_id_seen(xs: &Vec<ExperimentAssumption>, i: usize) -> (r: bool)
    requires
        i < xs@.len(),
    ensures
        r == assumption_id_repeats(xs@, i as int),
{
    let mut j: usize = 0;
    while j < i
        invariant
            i < xs@.len(),
            j <= i,
            forall|k: int| 0 <= k < j ==> xs@[k].id@ != xs@[i as int].id@,
        decreases i - j,
    {
        if text_eq(xs[j].id.as_str(), xs[i].id.as_str()) {
            return true;
        }
        j += 1;
    }
    false
}

fn check_assumption(
    srcs: &Vec<SensitivityReference>,
    xs: &Vec<ExperimentAssumption>,
    i: usize,
    issues: &mut Vec<Issue>,
)
    requires
        i < xs@.len(),
    ensures
        issue_texts(final(issues)@) == issue_texts(old(issues)@) + assumption_issues(
            srcs@,
            xs@,
            i as nat,
        ),
{
    let ghost start = issue_texts(issues@);
    let a = &xs[i];
    let a0 = push_issue(
        issues,
        !is_safe_identifier(a.id.as_str()),
        indexed_path("assumptions", i, ".id"),
        msg("must be a safe identifier"),
    );
    let a1 = push_step(
        issues,
        assumption_id_seen(xs, i),
        indexed_path("assumptions", i, ".id"),
        msg("must be unique"),
        Ghost(start),
        a0,
    );
    let a2 = push_step(
        issues,
        is_blank_text(a.subject.as_str()) || is_blank_text(a.rationale.as_str()),
        indexed_path("assumptions", i, ""),
        msg("subject and rationale must not be empty"),
        Ghost(start),
        a1,
    );
    let needs = match a.basis {
        AssumptionBasis::DocumentedEstimate | AssumptionBasis::MeasuredInput => true,
        _ => false,
    };
    let a3 = push_step(
        issues,
        needs && a.source_ids.len() == 0,
        indexed_path("assumptions", i, ".source_ids"),
        msg("must name at least one source for documented_estimate or measured_input"),
        Ghost(start),
        a2,
    );
    let path = indexed_path("assumptions", i, ".source_ids");
    let ghost mid = issue_texts(issues@);
    let mut k: usize = 0;
    while k < a.source_ids.len()
        invariant
            a == xs@[i as int],
            path@ == indexed("assumptions"@, i as nat, ".source_ids"@),
            k <= a.source_ids@.len(),
            issue_texts(issues@) == mid + references_issues(srcs@, path@, a.source_ids@, k as nat),
        decreases a.source_ids@.len() - k,
    {
        check_reference(srcs, path.as_str(), &a.source_ids, k, issues);
        proof {
            vstd::seq_lib::lemma_concat_associative(
                mid,
                references_issues(srcs@, path@, a.source_ids@, k as nat),
                reference_issues(srcs@, path@, a.source_ids@, k as nat),
            );
        }
        k += 1;
    }
    proof {
        reveal_strlit("");
        assert(""@ =~= Seq::<char>::empty());
        vstd::seq_lib::lemma_concat_associative(
            start,
            a3@,
            references_issues(srcs@, path@, a.source_ids@, a.source_ids@.len()),
        );
        assert(a3@ + references_issues(srcs@, path@, a.source_ids@, a.source_ids@.len())
            == assumption_issues(srcs@, xs@, i as nat));
    }
}

fn find_source_index(srcs: &Vec<SensitivityReference>, id: &str) -> (r: Option<usize>)
    ensures
        r is None ==> find_source(srcs@, id@) is None,
        r matches Some(k) ==> find_source(srcs@, id@) == Some(k as int) && k < srcs@.len(),
{
    let mut j: usize = 0;
    while j < srcs.len()
        invariant
            j <= srcs@.len(),
            find_source_from(srcs@, id@, 0) == find_source_from(srcs@, id@, j as int),
        decreases srcs@.len() - j,
    {
        if text_eq(srcs[j].id.as_str(), id) {
            return Some(j);
        }
        j += 1;
    }
    None
}

fn attestation_seen(atts: &Vec<ExperimentSourceAttestation>, i: usize) -> (r: bool)
    requires
        i < atts@.len(),
    ensures
        r == attested_before(atts@, i as int),
{
    let mut j: usize = 0;
    while j < i
        invariant
            i < atts@.len(),
            j <= i,
            forall|k: int|
                0 <= k < j ==> attestation_source_id(atts@[k]) != attestation_source_id(
                    atts@[i as int],
                ),
        decreases i - j,
    {
        if text_eq(atts[j].source_id(), atts[i].source_id()) {
            return true;
        }
        j += 1;
    }
    false
}

fn check_kind(
    a: &ExperimentSourceAttestation,
    s: &SensitivityReference,
    i: usize,
    issues: &mut Vec<Issue>,
)
    ensures
        issue_texts(final(issues)@) == issue_texts(old(issues)@) + kind_issues(*a, *s, i as nat),
{
    let ghost start = issue_texts(issues@);
    match a {
        ExperimentSourceAttestation::OsmLocalProjection {
            catalog_path,
            data_root,
            observation_report_path,
            ..
        } => {
            let a0 = push_issue(
                issues,
                !normal_relative_path(catalog_path.as_str()),
                indexed_path("source_attestations", i, ".catalog_path"),
                msg("must be a non-empty relative path without `.` or `..` components"),
            );
            let a1 = push_step(
                issues,
                !normal_relative_path(data_root.as_str()),
                indexed_path("source_attestations", i, ".data_root"),
                msg("must be a non-empty relative path without `.` or `..` components"),
                Ghost(start),
                a0,
            );
            let a2 = push_step(
                issues,
                !normal_relative_path(observation_report_path.as_str()),
                indexed_path("source_attestations", i, ".observation_report_path"),
                msg("must be a non-empty relative path without `.` or `..` components"),
                Ghost(start),
                a1,
            );
            proof {
                assert(a2@ == kind_issues(*a, *s, i as nat));
            }
        },
        ExperimentSourceAttestation::OsmScenarioAnchor {
            projection_source_id,
            anchor_manifest_path,
            ..
        } => {
            let a0 = push_issue(
                issues,
                s.source_sha256.is_none(),
                indexed_path("source_attestations", i, ".source_id"),
                msg("must reference a source with source_sha256 for osm_scenario_anchor"),
            );
            let a1 = push_step(
                issues,
                !is_safe_identifier(projection_source_id.as_str()),
                indexed_path("source_attestations", i, ".projection_source_id"),
                msg("must be a safe identifier"),
                Ghost(start),
                a0,
            );
            let a2 = push_step(
                issues,
                !normal_relative_path(anchor_manifest_path.as_str()),
                indexed_path("source_attestations", i, ".anchor_manifest_path"),
                msg("must be a non-empty relative path without `.` or `..` components"),
                Ghost(start),
                a1,
            );
            proof {
                assert(a2@ == kind_issues(*a, *s, i as nat));
            }
        },
    }
}

fn check_attestation(
    srcs: &Vec<SensitivityReference>,
    atts: &Vec<ExperimentSourceAttestation>,
    i: usize,
    issues: &mut Vec<Issue>,
)
    requires
        i < atts@.len(),
    ensures
        issue_texts(final(issues)@) == issue_texts(old(issues)@) + attestation_issues(
            srcs@,
            atts@,
            i as nat,
        ),
{
    let ghost start = issue_texts(issues@);
    let a = &atts[i];
    let sid = a.source_id();
    let a0 = push_issue(
        issues,
        !is_safe_identifier(sid),
        indexed_path("source_attestations", i, ".source_id"),
        msg("must be a safe identifier"),
    );
    let a1 = push_step(
        issues,
        attestation_seen(atts, i),
        indexed_path("source_attestations", i, ".source_id"),
        msg("must not be attested more than once"),
        Ghost(start),
        a0,
    );
    match find_source_index(srcs, sid) {
        None => {
            let a2 = push_step(
                issues,
                true,
                indexed_path("source_attestations", i, ".source_id"),
                backticked_message("references unknown source `", sid),
                Ghost(start),
                a1,
            );
            proof {
                assert(a2@ == attestation_issues(srcs@, atts@, i as nat));
            }
        },
        Some(k) => {
            let s = &srcs[k];
            let a2 = push_step(
                issues,
                s.derived_report.is_none(),
                indexed_path("source_attestations", i, ".source_id"),
                msg("must reference a source with a derived_report"),
                Ghost(start),
                a1,
            );
            check_kind(a, s, i, issues);
            proof {
                vstd::seq_lib::lemma_concat_associative(start, a2@, kind_issues(*a, *s, i as nat));
                assert(a2@ + kind_issues(*a, *s, i as nat) =~= attestation_issues(
                    srcs@,
                    atts@,
                    i as nat,
                ));
            }
        },
    }
}

fn is_local_projection(
    srcs: &Vec<SensitivityReference>,
    atts: &Vec<ExperimentSourceAttestation>,
    id: &str,
) -> (r: bool)
    ensures
        r == is_local_projection_source(srcs@, atts@, id@),
{
    let known = find_source_index(srcs, id).is_some();
    let mut j: usize = 0;
    while j < atts.len()
        invariant
            j <= atts@.len(),
            known == find_source(srcs@, id@) is Some,
            forall|q: int|
                0 <= q < j ==> !((#[trigger] atts@[q]) is OsmLocalProjection
                    && attestation_source_id(atts@[q]) == id@ && known),
        decreases atts@.len() - j,
    {
        let local = match &atts[j] {
            ExperimentSourceAttestation::OsmLocalProjection { .. } => true,
            _ => false,
        };
        if local && known && text_eq(atts[j].source_id(), id) {
            return true;
        }
        j += 1;
    }
    false
}

fn check_dependency(
    srcs: &Vec<SensitivityReference>,
    atts: &Vec<ExperimentSourceAttestation>,
    i: usize,
    issues: &mut Vec<Issue>,
)
    requires
        i < atts@.len(),
    ensures
        issue_texts(final(issues)@) == issue_texts(old(issues)@) + dependency_issues(
            srcs@,
            atts@,
            i as nat,
        ),
{
    let ghost start = issue_texts(issues@);
    let a = &atts[i];
    match a {
        ExperimentSourceAttestation::OsmScenarioAnchor { source_id, projection_source_id, .. } => {
            if find_source_index(srcs, source_id.as_str()).is_some() {
                let a0 = push_issue(
                    issues,
                    text_eq(source_id.as_str(), projection_source_id.as_str()),
                    indexed_path("source_attestations", i, ".projection_source_id"),
                    msg("must differ from source_id"),
                );
                let a1 = push_step(
                    issues,
                    !is_local_projection(srcs, atts, projection_source_id.as_str()),
                    indexed_path("source_attestations", i, ".projection_source_id"),
                    msg("must name the source_id of an osm_local_projection attestation"),
                    Ghost(start),
                    a0,
                );
                proof {
                    assert(a1@ == dependency_issues(srcs@, atts@, i as nat));
                }
            } else {
                proof {
                    assert(issue_texts(issues@) =~= start + dependency_issues(srcs@, atts@, i as nat));
                }
            }
        },
        _ => {
            proof {
                assert(issue_texts(issues@) =~= start + dependency_issues(srcs@, atts@, i as nat));
            }
        },
    }
}

fn into_errors(issues: Vec<Issue>) -> (r: Vec<ExperimentValidationError>)
    ensures
        experiment_issue_texts(r@) == issue_texts(issues@),
{
    let mut out: Vec<ExperimentValidationError> = Vec::new();
    let mut i: usize = 0;
    while i < issues.len()
        invariant
            i <= issues@.len(),
            out@.len() == i,
            forall|j: int| 0 <= j < i ==> (#[trigger] out@[j])@ == issues@[j]@,
        decreases issues@.len() - i,
    {
        out.push(ExperimentValidationError {
            path: issues[i].path.clone(),
            message: issues[i].message.clone(),
        });
        i += 1;
    }
    proof {
        lemma_issue_texts_len(issues@);
        assert forall|j: int| 0 <= j < issues@.len() implies experiment_issue_texts(out@)[j]
            == issue_texts(issues@)[j] by {
            lemma_issue_texts_index(issues@, j);
        }
        assert(experiment_issue_texts(out@) =~= issue_texts(issues@));
    }
    out
}

/// Validate manifest shape and provenance references before an experiment
/// creates any runtime artifact. This does not claim a source is applicable or
/// calibrate the simulation runtime.
///
/// Every problem is reported, in field order; the manifest is accepted exactly
/// when there is none.
pub fn validate_experiment_manifest(manifest: &ExperimentManifest) -> (r: Result<
    (),
    Vec<ExperimentValidationError>,
>)
    ensures
        r is Ok <==> experiment_issues(*manifest).len() == 0,
        r matches Err(errors) ==> experiment_issue_texts(errors@) == experiment_issues(*manifest),
{
    let mut issues: Vec<Issue> = Vec::new();
    let ghost srcs = manifest.sources@;
    let ghost xs = manifest.assumptions@;
    let ghost atts = manifest.source_attestations@;
    proof {
        reveal(issue_texts);
        assert(issue_texts(issues@) =~= Seq::empty());
    }
    check_header(manifest, &mut issues);
    let ghost t0 = header_issues(*manifest);
    proof {
        assert(issue_texts(issues@) =~= t0);
    }
    let mut i: usize = 0;
    while i < manifest.sources.len()
        invariant
            srcs == manifest.sources@,
            i <= srcs.len(),
            issue_texts(issues@) == t0 + sources_issues(srcs, i as nat),
        decreases srcs.len() - i,
    {
        check_source(&manifest.sources, i, &mut issues);
        proof {
            vstd::seq_lib::lemma_concat_associative(t0, sources_issues(srcs, i as nat), source_issues(srcs, i as nat));
        }
        i += 1;
    }
    let ghost t1 = t0 + sources_issues(srcs, srcs.len());
    let mut k: usize = 0;
    while k < manifest.assumptions.len()
        invariant
            srcs == manifest.sources@,
            xs == manifest.assumptions@,
            k <= xs.len(),
            issue_texts(issues@) == t1 + assumptions_issues(srcs, xs, k as nat),
        decreases xs.len() - k,
    {
        check_assumption(&manifest.sources, &manifest.assumptions, k, &mut issues);
        proof {
            vstd::seq_lib::lemma_concat_associative(t1, assumptions_issues(srcs, xs, k as nat), assumption_issues(srcs, xs, k as nat));
        }
        k += 1;
    }
    let ghost t2 = t1 + assumptions_issues(srcs, xs, xs.len());
    let mut a: usize = 0;
    while a < manifest.source_attestations.len()
        invariant
            srcs == manifest.sources@,
            atts == manifest.source_attestations@,
            a <= atts.len(),
            issue_texts(issues@) == t2 + attestations_issues(srcs, atts, a as nat),
        decreases atts.len() - a,
    {
        check_attestation(&manifest.sources, &manifest.source_attestations, a, &mut issues);
        proof {
            vstd::seq_lib::lemma_concat_associative(t2, attestations_issues(srcs, atts, a as nat), attestation_issues(srcs, atts, a as nat));
        }
        a += 1;
    }
    let ghost t3 = t2 + attestations_issues(srcs, atts, atts.len());
    let mut d: usize = 0;
    while d < manifest.source_attestations.len()
        invariant
            srcs == manifest.sources@,
            atts == manifest.source_attestations@,
            d <= atts.len(),
            issue_texts(issues@) == t3 + dependencies_issues(srcs, atts, d as nat),
        decreases atts.len() - d,
    {
        check_dependency(&manifest.sources, &manifest.source_attestations, d, &mut issues);
        proof {
            vstd::seq_lib::lemma_concat_associative(t3, dependencies_issues(srcs, atts, d as nat), dependency_issues(srcs, atts, d as nat));
        }
        d += 1;
    }
    proof {
        assert(issue_texts(issues@) == experiment_issues(*manifest));
        lemma_issue_texts_len(issues@);
    }
    if issues.len() == 0 {
        Ok(())
    } else {
        Err(into_errors(issues))
    }
}

/// Source attestations need schema `0.2`: a `0.1` manifest that declares
/// one is refused.
#[verifier::spinoff_prover]
#[verifier::rlimit(40)]
pub proof fn lemma_attestations_need_schema_0_2(m: ExperimentManifest)
    requires
        m.schema_version@ == "0.1"@,
        m.source_attestations@.len() > 0,
    ensures
        experiment_issues(m).len() > 0,
{
    let refused = only_if(
        m.schema_version@ == "0.1"@ && m.source_attestations@.len() != 0,
        ("source_attestations"@, "requires schema_version `0.2`"@),
    );
    assert(refused.len() == 1);
    assert(header_issues(m).len() > 0);
}

proof fn lemma_sources_clean(srcs: Seq<SensitivityReference>, n: nat)
    requires
        sources_issues(srcs, n).len() == 0,
    ensures
        forall|i: nat| i < n ==> (#[trigger] source_issues(srcs, i)).len() == 0,
    decreases n,
{
    if n > 0 {
        lemma_sources_clean(srcs, (n - 1) as nat);
    }
}

proof fn lemma_references_clean(srcs: Seq<SensitivityReference>, path: Seq<char>, ids: Seq<String>, n: nat)
    requires
        references_issues(srcs, path, ids, n).len() == 0,
    ensures
        forall|k: nat| k < n ==> (#[trigger] reference_issues(srcs, path, ids, k)).len() == 0,
    decreases n,
{
    if n > 0 {
        lemma_references_clean(srcs, path, ids, (n - 1) as nat);
    }
}

proof fn lemma_assumptions_clean(srcs: Seq<SensitivityReference>, xs: Seq<ExperimentAssumption>, n: nat)
    requires
        assumptions_issues(srcs, xs, n).len() == 0,
    ensures
        forall|i: nat| i < n ==> (#[trigger] assumption_issues(srcs, xs, i)).len() == 0,
    decreases n,
{
    if n > 0 {
        lemma_assumptions_clean(srcs, xs, (n - 1) as nat);
    }
}

proof fn lemma_attestations_clean(
    srcs: Seq<SensitivityReference>,
    atts: Seq<ExperimentSourceAttestation>,
    n: nat,
)
    requires
        attestations_issues(srcs, atts, n).len() == 0,
    ensures
        forall|i: nat| i < n ==> (#[trigger] attestation_issues(srcs, atts, i)).len() == 0,
    decreases n,
{
    if n > 0 {
        lemma_attestations_clean(srcs, atts, (n - 1) as nat);
    }
}

proof fn lemma_dependencies_clean(
    srcs: Seq<SensitivityReference>,
    atts: Seq<ExperimentSourceAttestation>,
    n: nat,
)
    requires
        dependencies_issues(srcs, atts, n).len() == 0,
    ensures
        forall|i: nat| i < n ==> (#[trigger] dependency_issues(srcs, atts, i)).len() == 0,
    decreases n,
{
    if n > 0 {
        lemma_dependencies_clean(srcs, atts, (n - 1) as nat);
    }
}

/// The sources of an accepted manifest have distinct safe identifiers.
#[verifier::spinoff_prover]
#[verifier::rlimit(60)]
pub proof fn lemma_accepted_manifest_sources(m: ExperimentManifest)
    requires
        experiment_issues(m).len() == 0,
    ensures
        forall|i: int| 0 <= i < m.sources@.len() ==> is_safe_identifier_text((#[trigger] m.sources@[i]).id@),
        forall|i: int, j: int|
            0 <= i < j < m.sources@.len() ==> (#[trigger] m.sources@[i]).id@ != (#[trigger] m.sources@[j]).id@,
{
    let srcs = m.sources@;
    assert(sources_issues(srcs, srcs.len()).len() == 0);
    lemma_sources_clean(srcs, srcs.len());
    assert forall|i: int| 0 <= i < srcs.len() implies is_safe_identifier_text((#[trigger] srcs[i]).id@) by {
        assert(source_issues(srcs, i as nat).len() == 0);
    }
    assert forall|i: int, j: int| 0 <= i < j < srcs.len() implies (#[trigger] srcs[i]).id@ != (#[trigger] srcs[j]).id@ by {
        assert(source_issues(srcs, j as nat).len() == 0);
        assert(!source_id_repeats(srcs, j));
    }
}

/// The assumptions of an accepted manifest have distinct safe identifiers,
/// and every source they name is a declared source.
#[verifier::spinoff_prover]
#[verifier::rlimit(60)]
pub proof fn lemma_accepted_manifest_assumptions(m: ExperimentManifest)
    requires
        experiment_issues(m).len() == 0,
    ensures
        forall|i: int|
            0 <= i < m.assumptions@.len() ==> is_safe_identifier_text((#[trigger] m.assumptions@[i]).id@),
        forall|i: int, j: int|
            0 <= i < j < m.assumptions@.len() ==> (#[trigger] m.assumptions@[i]).id@
                != (#[trigger] m.assumptions@[j]).id@,
        forall|i: int, k: int|
            0 <= i < m.assumptions@.len() && 0 <= k < (#[trigger] m.assumptions@[i]).source_ids@.len()
                ==> is_source_id(m.sources@, #[trigger] m.assumptions@[i].source_ids@[k]@),
{
    let srcs = m.sources@;
    let xs = m.assumptions@;
    assert(assumptions_issues(srcs, xs, xs.len()).len() == 0);
    lemma_assumptions_clean(srcs, xs, xs.len());
    assert forall|i: int| 0 <= i < xs.len() implies is_safe_identifier_text((#[trigger] xs[i]).id@) by {
        assert(assumption_issues(srcs, xs, i as nat).len() == 0);
    }
    assert forall|i: int, j: int| 0 <= i < j < xs.len() implies (#[trigger] xs[i]).id@ != (#[trigger] xs[j]).id@ by {
        assert(assumption_issues(srcs, xs, j as nat).len() == 0);
        assert(!assumption_id_repeats(xs, j));
    }
    assert forall|i: int, k: int| 0 <= i < xs.len() && 0 <= k < (#[trigger] xs[i]).source_ids@.len() implies is_source_id(
        srcs,
        #[trigger] xs[i].source_ids@[k]@,
    ) by {
        let ids = xs[i].source_ids@;
        let path = indexed("assumptions"@, i as nat, ".source_ids"@);
        assert(assumption_issues(srcs, xs, i as nat).len() == 0);
        assert(references_issues(srcs, path, ids, ids.len()).len() == 0);
        lemma_references_clean(srcs, path, ids, ids.len());
        assert(reference_issues(srcs, path, ids, k as nat).len() == 0);
    }
}

/// The attestations of an accepted manifest each attest a distinct declared
/// source that has a derived report; an anchor's projection source differs
/// from its own source and is attested by a local projection.
#[verifier::spinoff_prover]
#[verifier::rlimit(60)]
pub proof fn lemma_accepted_manifest_attestations(m: ExperimentManifest)
    requires
        experiment_issues(m).len() == 0,
    ensures
        forall|i: int|
            0 <= i < m.source_attestations@.len() ==> is_safe_identifier_text(
                attestation_source_id(#[trigger] m.source_attestations@[i]),
            ) && (find_source(m.sources@, attestation_source_id(m.source_attestations@[i])) matches Some(k)
                && m.sources@[k].derived_report is Some),
        forall|i: int, j: int|
            0 <= i < j < m.source_attestations@.len() ==> attestation_source_id(#[trigger] m.source_attestations@[i])
                != attestation_source_id(#[trigger] m.source_attestations@[j]),
        forall|i: int|
            0 <= i < m.source_attestations@.len() ==> ((#[trigger] m.source_attestations@[i]) matches ExperimentSourceAttestation::OsmScenarioAnchor {
                projection_source_id,
                ..
            } ==> projection_source_id@ != attestation_source_id(m.source_attestations@[i])
                && is_local_projection_source(m.sources@, m.source_attestations@, projection_source_id@)),
{
    let srcs = m.sources@;
    let atts = m.source_attestations@;
    assert(attestations_issues(srcs, atts, atts.len()).len() == 0);
    assert(dependencies_issues(srcs, atts, atts.len()).len() == 0);
    lemma_attestations_clean(srcs, atts, atts.len());
    lemma_dependencies_clean(srcs, atts, atts.len());
    assert forall|i: int| 0 <= i < atts.len() implies is_safe_identifier_text(
        attestation_source_id(#[trigger] atts[i]),
    ) && (find_source(srcs, attestation_source_id(atts[i])) matches Some(k) && srcs[k].derived_report is Some) by {
        assert(attestation_issues(srcs, atts, i as nat).len() == 0);
    }
    assert forall|i: int, j: int| 0 <= i < j < atts.len() implies attestation_source_id(#[trigger] atts[i])
        != attestation_source_id(#[trigger] atts[j]) by {
        assert(attestation_issues(srcs, atts, j as nat).len() == 0);
        assert(!attested_before(atts, j));
    }
    assert forall|i: int| 0 <= i < atts.len() implies ((#[trigger] atts[i]) matches ExperimentSourceAttestation::OsmScenarioAnchor {
        projection_source_id,
        ..
    } ==> projection_source_id@ != attestation_source_id(atts[i]) && is_local_projection_source(
        srcs,
        atts,
        projection_source_id@,
    )) by {
        assert(attestation_issues(srcs, atts, i as nat).len() == 0);
        assert(dependency_issues(srcs, atts, i as nat).len() == 0);
    }
}

/// What the header of an accepted experiment manifest is: schema `0.1` or
/// `0.2`, with source attestations only under `0.2`; a positive trace
/// interval; at least one assumption. The three lemmas above describe its
/// sources, assumptions and attestations.
#[verifier::spinoff_prover]
#[verifier::rlimit(60)]
pub proof fn lemma_accepted_manifest(m: ExperimentManifest)
    requires
        experiment_issues(m).len() == 0,
    ensures
        m.schema_version@ == "0.1"@ || m.schema_version@ == "0.2"@,
        m.schema_version@ == "0.1"@ ==> m.source_attestations@.len() == 0,
        m.trace_every_steps > 0,
        m.assumptions@.len() > 0,
{
    assert(header_issues(m).len() == 0);
    if m.schema_version@ == "0.1"@ {
        assert(only_if(
            m.schema_version@ == "0.1"@ && m.source_attestations@.len() != 0,
            ("source_attestations"@, "requires schema_version `0.2`"@),
        ).len() == 0);
    }
}

} // verus!
