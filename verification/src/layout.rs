//! The OpenStreetMap layout adapter's discrete rules: inspection limits,
//! which catalog may describe an OSM extract, the provenance of a layout
//! report, and the classification of OSM tags into pedestrian-layout
//! categories. Reading the XML and handling coordinates stay with the caller.

use vstd::prelude::*;
use crate::calibration::{joined_issues, joined_messages};
use crate::digest::{chars_eq_ignore_ascii_case, eq_ignoring_ascii_case, hex_digest, hex_lower, sha256};
use crate::evidence::{catalog_issues, evidence_issue_texts, validate_catalog, EvidenceCatalog, EvidencePurpose, EvidenceValidationError};
use crate::paths::{extension, extension_of};
use crate::text::{
    append_decimal, append_signed, append_text, chars_of, contains_text, decimal, has_substring,
    owned, signed_decimal, text_eq,
};

verus! {

/// Why an OpenStreetMap layout input was refused.
#[derive(Debug, Clone)]
pub enum OsmLayoutError {
    InvalidCatalog(String),
    WrongPurpose,
    WrongLicense,
    MissingOpenStreetMapAttribution,
    UnexpectedFileCount,
    UnsupportedSourceFormat { path: String },
    SourceLock(String),
    ReadFile { path: String, message: String },
    Xml { path: String, message: String },
    WrongRoot { path: String },
    InvalidLimit { name: String },
    LimitExceeded { name: String, limit: usize },
    InvalidAttribute { element: String, attribute: String, value: String },
    MissingAttribute { element: String, attribute: String },
    DuplicateIdentifier { object_type: String, id: i64 },
    DuplicateTag { object_type: String, id: i64, key: String },
    MissingNodeReference { way_id: i64, node_id: i64 },
    CatalogSerialization(String),
    ReportLimitOutOfRange { field: String },
    ReportMismatch,
    CatalogReportSourceMismatch,
    UnsupportedObservationReportSchema { version: String },
    NonFiniteProjection { axis: String },
    InvalidProjectionSourceReport { field: String, expected: String, actual: String },
    ProjectionSerialization(String),
    ProjectionMismatch,
    InvalidScenarioAnchorManifest(String),
    UnknownScenarioAnchorTarget { anchor_id: String, target_kind: String, target_id: String },
    UnknownScenarioAnchorSource { anchor_id: String, object_type: String, object_id: i64 },
    ScenarioAnchorCategoryMismatch { anchor_id: String, category: String, object_type: String, object_id: i64 },
    ScenarioAnchorMissingWayNode { anchor_id: String, way_id: i64, node_id: i64 },
    ScenarioAnchorUnsupportedGeometry { anchor_id: String, object_type: String, object_id: i64 },
    ScenarioAnchorCoordinateMismatch { anchor_id: String },
    ScenarioAnchorReportMismatch,
}

/// The message of each error.
pub open spec fn osm_layout_error_text(e: OsmLayoutError) -> Seq<char> {
    match e {
        OsmLayoutError::InvalidCatalog(x0) => "layout catalog is invalid: "@ + x0@,
        OsmLayoutError::WrongPurpose => "layout inspection requires an uncalibrated_reference catalog"@,
        OsmLayoutError::WrongLicense => "layout inspection requires an `ODbL-1.0` catalog"@,
        OsmLayoutError::MissingOpenStreetMapAttribution => "layout inspection requires OpenStreetMap contributor attribution in the catalog"@,
        OsmLayoutError::UnexpectedFileCount => "layout inspection requires exactly one content-locked OSM XML file"@,
        OsmLayoutError::UnsupportedSourceFormat { path } => "layout inspection accepts a `.osm` or `.xml` source file, found `"@ + path@ + "`"@,
        OsmLayoutError::SourceLock(x0) => "layout source lock failed: "@ + x0@,
        OsmLayoutError::ReadFile { path, message } => "cannot read "@ + path@ + ": "@ + message@,
        OsmLayoutError::Xml { path, message } => path@ + ": invalid OSM XML: "@ + message@,
        OsmLayoutError::WrongRoot { path } => path@ + ": OSM XML root element must be `osm`"@,
        OsmLayoutError::InvalidLimit { name } => "OSM inspection bound `"@ + name@ + "` must be non-zero"@,
        OsmLayoutError::LimitExceeded { name, limit } => "OSM inspection exceeded its `"@ + name@ + "` bound of "@ + decimal(limit as nat),
        OsmLayoutError::InvalidAttribute { element, attribute, value } => element@ + " has an invalid `"@ + attribute@ + "` attribute: `"@ + value@ + "`"@,
        OsmLayoutError::MissingAttribute { element, attribute } => "OSM XML is missing required `"@ + attribute@ + "` on "@ + element@,
        OsmLayoutError::DuplicateIdentifier { object_type, id } => "duplicate OSM "@ + object_type@ + " identifier `"@ + signed_decimal(id as int) + "`"@,
        OsmLayoutError::DuplicateTag { object_type, id, key } => "duplicate `"@ + key@ + "` tag on OSM "@ + object_type@ + " `"@ + signed_decimal(id as int) + "`"@,
        OsmLayoutError::MissingNodeReference { way_id, node_id } => "selected OSM way `"@ + signed_decimal(way_id as int) + "` references unavailable node `"@ + signed_decimal(node_id as int) + "`"@,
        OsmLayoutError::CatalogSerialization(x0) => "cannot serialize layout catalog for provenance: "@ + x0@,
        OsmLayoutError::ReportLimitOutOfRange { field } => "layout report `"@ + field@ + "` value cannot be represented on this platform"@,
        OsmLayoutError::ReportMismatch => "layout observation report does not match reconstruction from its catalog and locked source"@,
        OsmLayoutError::CatalogReportSourceMismatch => "layout observation report source metadata does not match its catalog"@,
        OsmLayoutError::UnsupportedObservationReportSchema { version } => "unsupported OSM source-observation report schema `"@ + version@ + "`"@,
        OsmLayoutError::NonFiniteProjection { axis } => "local projection produced a non-finite `"@ + axis@ + "` coordinate"@,
        OsmLayoutError::InvalidProjectionSourceReport { field, expected, actual } => "local projection requires an OSM source-observation report with `"@ + field@ + "` equal to `"@ + expected@ + "`, found `"@ + actual@ + "`"@,
        OsmLayoutError::ProjectionSerialization(x0) => "cannot serialize layout observation report for projection provenance: "@ + x0@,
        OsmLayoutError::ProjectionMismatch => "local coordinate projection does not match reconstruction from its source-observation report"@,
        OsmLayoutError::InvalidScenarioAnchorManifest(x0) => "OSM scenario-anchor manifest is invalid: "@ + x0@,
        OsmLayoutError::UnknownScenarioAnchorTarget { anchor_id, target_kind, target_id } => "OSM scenario anchor `"@ + anchor_id@ + "` references an unknown scenario "@ + target_kind@ + " `"@ + target_id@ + "`"@,
        OsmLayoutError::UnknownScenarioAnchorSource { anchor_id, object_type, object_id } => "OSM scenario anchor `"@ + anchor_id@ + "` references an unknown OSM "@ + object_type@ + " `"@ + signed_decimal(object_id as int) + "`"@,
        OsmLayoutError::ScenarioAnchorCategoryMismatch { anchor_id, category, object_type, object_id } => "OSM scenario anchor `"@ + anchor_id@ + "` requires category `"@ + category@ + "` on OSM "@ + object_type@ + " `"@ + signed_decimal(object_id as int) + "`"@,
        OsmLayoutError::ScenarioAnchorMissingWayNode { anchor_id, way_id, node_id } => "OSM scenario anchor `"@ + anchor_id@ + "` references node `"@ + signed_decimal(node_id as int) + "` absent from OSM way `"@ + signed_decimal(way_id as int) + "`"@,
        OsmLayoutError::ScenarioAnchorUnsupportedGeometry { anchor_id, object_type, object_id } => "OSM scenario anchor `"@ + anchor_id@ + "` requires point geometry on OSM "@ + object_type@ + " `"@ + signed_decimal(object_id as int) + "`"@,
        OsmLayoutError::ScenarioAnchorCoordinateMismatch { anchor_id } => "OSM scenario anchor `"@ + anchor_id@ + "` does not match its selected source point within one micrometre"@,
        OsmLayoutError::ScenarioAnchorReportMismatch => "OSM scenario-anchor report does not match reconstruction from its manifest, scenario, and local source projection"@,
    }
}

impl OsmLayoutError {
    /// The error's message.
    pub fn to_text(&self) -> (r: String)
        ensures
            r@ == osm_layout_error_text(*self),
    {
        let mut out = String::new();
        match self {
            OsmLayoutError::InvalidCatalog(x0) => {
                append_text(&mut out, "layout catalog is invalid: ");
                append_text(&mut out, x0.as_str());
            },
            OsmLayoutError::WrongPurpose => {
                append_text(&mut out, "layout inspection requires an uncalibrated_reference catalog");
            },
            OsmLayoutError::WrongLicense => {
                append_text(&mut out, "layout inspection requires an `ODbL-1.0` catalog");
            },
            OsmLayoutError::MissingOpenStreetMapAttribution => {
                append_text(&mut out, "layout inspection requires OpenStreetMap contributor attribution in the catalog");
            },
            OsmLayoutError::UnexpectedFileCount => {
                append_text(&mut out, "layout inspection requires exactly one content-locked OSM XML file");
            },
            OsmLayoutError::UnsupportedSourceFormat { path } => {
                append_text(&mut out, "layout inspection accepts a `.osm` or `.xml` source file, found `");
                append_text(&mut out, path.as_str());
                append_text(&mut out, "`");
            },
            OsmLayoutError::SourceLock(x0) => {
                append_text(&mut out, "layout source lock failed: ");
                append_text(&mut out, x0.as_str());
            },
            OsmLayoutError::ReadFile { path, message } => {
                append_text(&mut out, "cannot read ");
                append_text(&mut out, path.as_str());
                append_text(&mut out, ": ");
                append_text(&mut out, message.as_str());
            },
            OsmLayoutError::Xml { path, message } => {
                append_text(&mut out, path.as_str());
                append_text(&mut out, ": invalid OSM XML: ");
                append_text(&mut out, message.as_str());
            },
            OsmLayoutError::WrongRoot { path } => {
                append_text(&mut out, path.as_str());
                append_text(&mut out, ": OSM XML root element must be `osm`");
            },
            OsmLayoutError::InvalidLimit { name } => {
                append_text(&mut out, "OSM inspection bound `");
                append_text(&mut out, name.as_str());
                append_text(&mut out, "` must be non-zero");
            },
            OsmLayoutError::LimitExceeded { name, limit } => {
                append_text(&mut out, "OSM inspection exceeded its `");
                append_text(&mut out, name.as_str());
                append_text(&mut out, "` bound of ");
                append_decimal(&mut out, *limit as u64);
            },
            OsmLayoutError::InvalidAttribute { element, attribute, value } => {
                append_text(&mut out, element.as_str());
                append_text(&mut out, " has an invalid `");
                append_text(&mut out, attribute.as_str());
                append_text(&mut out, "` attribute: `");
                append_text(&mut out, value.as_str());
                append_text(&mut out, "`");
            },
            OsmLayoutError::MissingAttribute { element, attribute } => {
                append_text(&mut out, "OSM XML is missing required `");
                append_text(&mut out, attribute.as_str());
                append_text(&mut out, "` on ");
                append_text(&mut out, element.as_str());
            },
            OsmLayoutError::DuplicateIdentifier { object_type, id } => {
                append_text(&mut out, "duplicate OSM ");
                append_text(&mut out, object_type.as_str());
                append_text(&mut out, " identifier `");
                append_signed(&mut out, *id);
                append_text(&mut out, "`");
            },
            OsmLayoutError::DuplicateTag { object_type, id, key } => {
                append_text(&mut out, "duplicate `");
                append_text(&mut out, key.as_str());
                append_text(&mut out, "` tag on OSM ");
                append_text(&mut out, object_type.as_str());
                append_text(&mut out, " `");
                append_signed(&mut out, *id);
                append_text(&mut out, "`");
            },
            OsmLayoutError::MissingNodeReference { way_id, node_id } => {
                append_text(&mut out, "selected OSM way `");
                append_signed(&mut out, *way_id);
                append_text(&mut out, "` references unavailable node `");
                append_signed(&mut out, *node_id);
                append_text(&mut out, "`");
            },
            OsmLayoutError::CatalogSerialization(x0) => {
                append_text(&mut out, "cannot serialize layout catalog for provenance: ");
                append_text(&mut out, x0.as_str());
            },
            OsmLayoutError::ReportLimitOutOfRange { field } => {
                append_text(&mut out, "layout report `");
                append_text(&mut out, field.as_str());
                append_text(&mut out, "` value cannot be represented on this platform");
            },
            OsmLayoutError::ReportMismatch => {
                append_text(&mut out, "layout observation report does not match reconstruction from its catalog and locked source");
            },
            OsmLayoutError::CatalogReportSourceMismatch => {
                append_text(&mut out, "layout observation report source metadata does not match its catalog");
            },
            OsmLayoutError::UnsupportedObservationReportSchema { version } => {
                append_text(&mut out, "unsupported OSM source-observation report schema `");
                append_text(&mut out, version.as_str());
                append_text(&mut out, "`");
            },
            OsmLayoutError::NonFiniteProjection { axis } => {
                append_text(&mut out, "local projection produced a non-finite `");
                append_text(&mut out, axis.as_str());
                append_text(&mut out, "` coordinate");
            },
            OsmLayoutError::InvalidProjectionSourceReport { field, expected, actual } => {
                append_text(&mut out, "local projection requires an OSM source-observation report with `");
                append_text(&mut out, field.as_str());
                append_text(&mut out, "` equal to `");
                append_text(&mut out, expected.as_str());
                append_text(&mut out, "`, found `");
                append_text(&mut out, actual.as_str());
                append_text(&mut out, "`");
            },
            OsmLayoutError::ProjectionSerialization(x0) => {
                append_text(&mut out, "cannot serialize layout observation report for projection provenance: ");
                append_text(&mut out, x0.as_str());
            },
            OsmLayoutError::ProjectionMismatch => {
                append_text(&mut out, "local coordinate projection does not match reconstruction from its source-observation report");
            },
            OsmLayoutError::InvalidScenarioAnchorManifest(x0) => {
                append_text(&mut out, "OSM scenario-anchor manifest is invalid: ");
                append_text(&mut out, x0.as_str());
            },
            OsmLayoutError::UnknownScenarioAnchorTarget { anchor_id, target_kind, target_id } => {
                append_text(&mut out, "OSM scenario anchor `");
                append_text(&mut out, anchor_id.as_str());
                append_text(&mut out, "` references an unknown scenario ");
                append_text(&mut out, target_kind.as_str());
                append_text(&mut out, " `");
                append_text(&mut out, target_id.as_str());
                append_text(&mut out, "`");
            },
            OsmLayoutError::UnknownScenarioAnchorSource { anchor_id, object_type, object_id } => {
                append_text(&mut out, "OSM scenario anchor `");
                append_text(&mut out, anchor_id.as_str());
                append_text(&mut out, "` references an unknown OSM ");
                append_text(&mut out, object_type.as_str());
                append_text(&mut out, " `");
                append_signed(&mut out, *object_id);
                append_text(&mut out, "`");
            },
            OsmLayoutError::ScenarioAnchorCategoryMismatch { anchor_id, category, object_type, object_id } => {
                append_text(&mut out, "OSM scenario anchor `");
                append_text(&mut out, anchor_id.as_str());
                append_text(&mut out, "` requires category `");
                append_text(&mut out, category.as_str());
                append_text(&mut out, "` on OSM ");
                append_text(&mut out, object_type.as_str());
                append_text(&mut out, " `");
                append_signed(&mut out, *object_id);
                append_text(&mut out, "`");
            },
            OsmLayoutError::ScenarioAnchorMissingWayNode { anchor_id, way_id, node_id } => {
                append_text(&mut out, "OSM scenario anchor `");
                append_text(&mut out, anchor_id.as_str());
                append_text(&mut out, "` references node `");
                append_signed(&mut out, *node_id);
                append_text(&mut out, "` absent from OSM way `");
                append_signed(&mut out, *way_id);
                append_text(&mut out, "`");
            },
            OsmLayoutError::ScenarioAnchorUnsupportedGeometry { anchor_id, object_type, object_id } => {
                append_text(&mut out, "OSM scenario anchor `");
                append_text(&mut out, anchor_id.as_str());
                append_text(&mut out, "` requires point geometry on OSM ");
                append_text(&mut out, object_type.as_str());
                append_text(&mut out, " `");
                append_signed(&mut out, *object_id);
                append_text(&mut out, "`");
            },
            OsmLayoutError::ScenarioAnchorCoordinateMismatch { anchor_id } => {
                append_text(&mut out, "OSM scenario anchor `");
                append_text(&mut out, anchor_id.as_str());
                append_text(&mut out, "` does not match its selected source point within one micrometre");
            },
            OsmLayoutError::ScenarioAnchorReportMismatch => {
                append_text(&mut out, "OSM scenario-anchor report does not match reconstruction from its manifest, scenario, and local source projection");
            },
        }
        out
    }
}


/// Resource bounds for a local OSM XML inspection. A station-sized extract is
/// the intended input; callers must deliberately raise a bound for a larger
/// extract rather than accidentally retaining a regional node table in memory.
#[derive(Debug, Clone, Copy, PartialEq, Eq, Structural)]
pub struct OsmInspectionLimits {
    pub max_nodes: usize,
    pub max_ways: usize,
    pub max_node_references_per_way: usize,
    pub max_tags_per_object: usize,
}

impl Default for OsmInspectionLimits {
    fn default() -> (r: Self)
        ensures
            r.max_nodes == 250_000,
            r.max_ways == 50_000,
            r.max_node_references_per_way == 10_000,
            r.max_tags_per_object == 128,
    {
        OsmInspectionLimits {
            max_nodes: 250_000,
            max_ways: 50_000,
            max_node_references_per_way: 10_000,
            max_tags_per_object: 128,
        }
    }
}

/// The inspection limits as a report records them.
#[derive(Debug, Clone, Copy, PartialEq, Eq, Structural)]
pub struct OsmInspectionLimitsReport {
    pub max_nodes: u64,
    pub max_ways: u64,
    pub max_node_references_per_way: u64,
    pub max_tags_per_object: u64,
}

/// Each bound, widened to `u64`.
pub open spec fn limits_report(limits: OsmInspectionLimits) -> OsmInspectionLimitsReport {
    OsmInspectionLimitsReport {
        max_nodes: limits.max_nodes as u64,
        max_ways: limits.max_ways as u64,
        max_node_references_per_way: limits.max_node_references_per_way as u64,
        max_tags_per_object: limits.max_tags_per_object as u64,
    }
}

impl From<OsmInspectionLimits> for OsmInspectionLimitsReport {
    fn from(limits: OsmInspectionLimits) -> (r: Self) {
        OsmInspectionLimitsReport {
            max_nodes: limits.max_nodes as u64,
            max_ways: limits.max_ways as u64,
            max_node_references_per_way: limits.max_node_references_per_way as u64,
            max_tags_per_object: limits.max_tags_per_object as u64,
        }
    }
}

impl vstd::std_specs::convert::FromSpecImpl<OsmInspectionLimits> for OsmInspectionLimitsReport {
    open spec fn obeys_from_spec() -> bool {
        true
    }

    open spec fn from_spec(limits: OsmInspectionLimits) -> Self {
        limits_report(limits)
    }
}

/// Every bound must be positive; the first zero one is reported.
pub fn validate_limits(limits: OsmInspectionLimits) -> (r: Result<(), OsmLayoutError>)
    ensures
        r is Ok <==> limits.max_nodes > 0 && limits.max_ways > 0 && limits.max_node_references_per_way
            > 0 && limits.max_tags_per_object > 0,
        r matches Err(e) ==> (e matches OsmLayoutError::InvalidLimit { name } && name@ == if limits.max_nodes
            == 0 {
            "max_nodes"@
        } else if limits.max_ways == 0 {
            "max_ways"@
        } else if limits.max_node_references_per_way == 0 {
            "max_node_references_per_way"@
        } else {
            "max_tags_per_object"@
        }),
{
    if limits.max_nodes == 0 {
        return Err(OsmLayoutError::InvalidLimit { name: owned("max_nodes") });
    }
    if limits.max_ways == 0 {
        return Err(OsmLayoutError::InvalidLimit { name: owned("max_ways") });
    }
    if limits.max_node_references_per_way == 0 {
        return Err(OsmLayoutError::InvalidLimit { name: owned("max_node_references_per_way") });
    }
    if limits.max_tags_per_object == 0 {
        return Err(OsmLayoutError::InvalidLimit { name: owned("max_tags_per_object") });
    }
    Ok(())
}

/// A recorded bound as a `usize`, where it fits.
pub fn report_limit(field: &str, value: u64) -> (r: Result<usize, OsmLayoutError>)
    ensures
        r is Ok <==> value <= usize::MAX,
        r matches Ok(n) ==> n == value,
        r matches Err(e) ==> (e matches OsmLayoutError::ReportLimitOutOfRange { field: f } && f@ == field@),
{
    if value <= usize::MAX as u64 {
        Ok(value as usize)
    } else {
        Err(OsmLayoutError::ReportLimitOutOfRange { field: owned(field) })
    }
}

/// The limits a report recorded, as inspection limits of this platform.
pub fn limits_from_report(report: &OsmInspectionLimitsReport) -> (r: Result<
    OsmInspectionLimits,
    OsmLayoutError,
>)
    ensures
        r is Ok <==> report.max_nodes <= usize::MAX && report.max_ways <= usize::MAX
            && report.max_node_references_per_way <= usize::MAX && report.max_tags_per_object
            <= usize::MAX,
        r matches Ok(l) ==> limits_report(l) == *report,
{
    Ok(
        OsmInspectionLimits {
            max_nodes: report_limit("max_nodes", report.max_nodes)?,
            max_ways: report_limit("max_ways", report.max_ways)?,
            max_node_references_per_way: report_limit(
                "max_node_references_per_way",
                report.max_node_references_per_way,
            )?,
            max_tags_per_object: report_limit("max_tags_per_object", report.max_tags_per_object)?,
        },
    )
}

/// The two versions of the OSM source-observation report.
#[derive(Debug, Clone, Copy, PartialEq, Eq, Structural)]
pub enum OsmObservationSchema {
    /// Version 0.1: ways are summarized by their geographic bounds.
    LegacyBounds,
    /// Version 0.2: ways keep their node sequences.
    WayNodeSequences,
}

pub open spec fn schema_version_text(schema: OsmObservationSchema) -> Seq<char> {
    match schema {
        OsmObservationSchema::LegacyBounds => "0.1"@,
        OsmObservationSchema::WayNodeSequences => "0.2"@,
    }
}

pub open spec fn schema_of_version(version: Seq<char>) -> Option<OsmObservationSchema> {
    if version == "0.1"@ {
        Some(OsmObservationSchema::LegacyBounds)
    } else if version == "0.2"@ {
        Some(OsmObservationSchema::WayNodeSequences)
    } else {
        None
    }
}

impl OsmObservationSchema {
    pub fn version(self) -> (r: &'static str)
        ensures
            r@ == schema_version_text(self),
    {
        match self {
            OsmObservationSchema::LegacyBounds => "0.1",
            OsmObservationSchema::WayNodeSequences => "0.2",
        }
    }

    pub fn from_version(version: &str) -> (r: Result<Self, OsmLayoutError>)
        ensures
            r is Ok <==> schema_of_version(version@) is Some,
            r matches Ok(s) ==> schema_of_version(version@) == Some(s),
            r matches Err(e) ==> (e matches OsmLayoutError::UnsupportedObservationReportSchema {
                version: v,
            } && v@ == version@),
    {
        if text_eq(version, "0.1") {
            Ok(OsmObservationSchema::LegacyBounds)
        } else if text_eq(version, "0.2") {
            Ok(OsmObservationSchema::WayNodeSequences)
        } else {
            Err(OsmLayoutError::UnsupportedObservationReportSchema { version: owned(version) })
        }
    }
}

/// An OSM extract is read from a `.osm` or `.xml` file (any case): the
/// extension of the path's last normal component.
pub open spec fn is_osm_xml_path_text(path: Seq<char>) -> bool {
    let c = crate::paths::normal_components(path);
    c.len() > 0 && (extension(c.last()) matches Some(e) && (eq_ignoring_ascii_case(e, "osm"@)
        || eq_ignoring_ascii_case(e, "xml"@)))
}

pub fn is_osm_xml_path(path: &str) -> (r: bool)
    ensures
        r == is_osm_xml_path_text(path@),
{
    let c = crate::paths::plain_components(&chars_of(path));
    if c.len() == 0 {
        return false;
    }
    match extension_of(&c[c.len() - 1]) {
        Some(e) => chars_eq_ignore_ascii_case(&e, &chars_of("osm")) || chars_eq_ignore_ascii_case(
            &e,
            &chars_of("xml"),
        ),
        None => false,
    }
}

/// The source that a layout observation report describes.
#[derive(Debug, Clone)]
pub struct OpenStreetMapLayoutSource {
    pub catalog_sha256: String,
    pub dataset_id: String,
    pub source_url: String,
    pub source_sha256: String,
    pub size_bytes: u64,
    pub license: String,
    pub required_attribution: String,
}

pub open spec fn osm_license() -> Seq<char> {
    "ODbL-1.0"@
}

pub open spec fn required_osm_attribution() -> Seq<char> {
    "OpenStreetMap contributors"@
}

/// The attribution a catalog states, or nothing.
pub open spec fn attribution_text(c: EvidenceCatalog) -> Seq<char> {
    match c.attribution {
        Some(a) => a@,
        None => Seq::empty(),
    }
}

/// Whether a catalog may describe an OSM extract for layout inspection.
pub open spec fn layout_catalog_accepted(c: EvidenceCatalog) -> bool {
    &&& catalog_issues(c).len() == 0
    &&& c.purpose == EvidencePurpose::UncalibratedReference
    &&& c.license@ == osm_license()
    &&& has_substring(attribution_text(c), required_osm_attribution())
    &&& c.files@.len() == 1
    &&& is_osm_xml_path_text(c.files@[0].local_path@)
}

/// The error for a catalog that may not describe an OSM extract: the first
/// of the conditions of [`layout_catalog_accepted`] that fails.
pub open spec fn layout_catalog_error(e: OsmLayoutError, c: EvidenceCatalog) -> bool {
    if catalog_issues(c).len() > 0 {
        e matches OsmLayoutError::InvalidCatalog(m) && m@ == joined_issues(catalog_issues(c))
    } else if c.purpose != EvidencePurpose::UncalibratedReference {
        e is WrongPurpose
    } else if c.license@ != osm_license() {
        e is WrongLicense
    } else if !has_substring(attribution_text(c), required_osm_attribution()) {
        e is MissingOpenStreetMapAttribution
    } else if c.files@.len() != 1 {
        e is UnexpectedFileCount
    } else {
        e matches OsmLayoutError::UnsupportedSourceFormat { path } && path@ == c.files@[0].local_path@
    }
}

/// The report source of an accepted catalog whose canonical serialization is
/// `serialized`.
pub open spec fn layout_source_is(s: OpenStreetMapLayoutSource, c: EvidenceCatalog, serialized: Seq<u8>) -> bool {
    &&& s.catalog_sha256@ == hex_lower(sha256(serialized))
    &&& s.dataset_id@ == c.dataset_id@
    &&& s.source_url@ == c.files@[0].source_url@
    &&& s.source_sha256@ == c.files@[0].sha256@
    &&& s.size_bytes == c.files@[0].size_bytes
    &&& s.license@ == c.license@
    &&& s.required_attribution@ == attribution_text(c)
}

/// The provenance of a layout report on the catalog's one OSM XML file.
/// `serialized_catalog` is the catalog's canonical JSON serialization.
pub fn openstreetmap_layout_source(catalog: &EvidenceCatalog, serialized_catalog: &[u8]) -> (r: Result<
    OpenStreetMapLayoutSource,
    OsmLayoutError,
>)
    ensures
        r is Ok <==> layout_catalog_accepted(*catalog),
        r matches Ok(s) ==> layout_source_is(s, *catalog, serialized_catalog@),
        r matches Err(e) ==> layout_catalog_error(e, *catalog),
{
    match validate_catalog(catalog) {
        Ok(()) => {},
        Err(errors) => {
            return Err(OsmLayoutError::InvalidCatalog(joined_messages(&errors)));
        },
    }
    if catalog.purpose != EvidencePurpose::UncalibratedReference {
        return Err(OsmLayoutError::WrongPurpose);
    }
    if !text_eq(catalog.license.as_str(), "ODbL-1.0") {
        return Err(OsmLayoutError::WrongLicense);
    }
    let attribution = match &catalog.attribution {
        Some(a) => a.as_str(),
        None => "",
    };
    proof {
        reveal_strlit("");
    }
    if !contains_text(attribution, "OpenStreetMap contributors") {
        return Err(OsmLayoutError::MissingOpenStreetMapAttribution);
    }
    if catalog.files.len() != 1 {
        return Err(OsmLayoutError::UnexpectedFileCount);
    }
    let source = &catalog.files[0];
    if !is_osm_xml_path(source.local_path.as_str()) {
        return Err(
            OsmLayoutError::UnsupportedSourceFormat { path: owned(source.local_path.as_str()) },
        );
    }
    Ok(
        OpenStreetMapLayoutSource {
            catalog_sha256: hex_digest(serialized_catalog),
            dataset_id: owned(catalog.dataset_id.as_str()),
            source_url: owned(source.source_url.as_str()),
            source_sha256: owned(source.sha256.as_str()),
            size_bytes: source.size_bytes,
            license: owned(catalog.license.as_str()),
            required_attribution: owned(attribution),
        },
    )
}

pub open spec fn same_layout_source(a: OpenStreetMapLayoutSource, b: OpenStreetMapLayoutSource) -> bool {
    &&& a.catalog_sha256@ == b.catalog_sha256@
    &&& a.dataset_id@ == b.dataset_id@
    &&& a.source_url@ == b.source_url@
    &&& a.source_sha256@ == b.source_sha256@
    &&& a.size_bytes == b.size_bytes
    &&& a.license@ == b.license@
    &&& a.required_attribution@ == b.required_attribution@
}

/// Field-by-field equality of two report sources.
pub fn layout_sources_equal(a: &OpenStreetMapLayoutSource, b: &OpenStreetMapLayoutSource) -> (r: bool)
    ensures
        r == same_layout_source(*a, *b),
{
    text_eq(a.catalog_sha256.as_str(), b.catalog_sha256.as_str()) && text_eq(
        a.dataset_id.as_str(),
        b.dataset_id.as_str(),
    ) && text_eq(a.source_url.as_str(), b.source_url.as_str()) && text_eq(
        a.source_sha256.as_str(),
        b.source_sha256.as_str(),
    ) && a.size_bytes == b.size_bytes && text_eq(a.license.as_str(), b.license.as_str()) && text_eq(
        a.required_attribution.as_str(),
        b.required_attribution.as_str(),
    )
}

/// Check the static catalog-to-report link without reading the raw XML: the
/// report's recorded source must be the one the catalog describes.
pub fn verify_openstreetmap_layout_catalog_contract(
    catalog: &EvidenceCatalog,
    serialized_catalog: &[u8],
    report_source: &OpenStreetMapLayoutSource,
) -> (r: Result<(), OsmLayoutError>)
    ensures
        r is Ok <==> layout_catalog_accepted(*catalog) && (exists|s: OpenStreetMapLayoutSource|
            layout_source_is(s, *catalog, serialized_catalog@) && same_layout_source(
                *report_source,
                s,
            )),
        r matches Err(e) ==> if layout_catalog_accepted(*catalog) {
            e is CatalogReportSourceMismatch
        } else {
            layout_catalog_error(e, *catalog)
        },
{
    let rebuilt = openstreetmap_layout_source(catalog, serialized_catalog)?;
    if !layout_sources_equal(report_source, &rebuilt) {
        proof {
            assert forall|s: OpenStreetMapLayoutSource|
                layout_source_is(s, *catalog, serialized_catalog@) implies !same_layout_source(
                *report_source,
                s,
            ) by {
                assert(same_layout_source(s, rebuilt));
            }
        }
        return Err(OsmLayoutError::CatalogReportSourceMismatch);
    }
    Ok(())
}

pub open spec fn observation_status() -> Seq<char> {
    "source_observation_only"@
}

pub open spec fn geographic_coordinate_reference() -> Seq<char> {
    "WGS84 geographic latitude/longitude copied from the OSM XML; this adapter does not project coordinates into scenario metres or infer elevations."@
}

/// The status a source-observation report records.
pub fn osm_observation_status() -> (r: &'static str)
    ensures
        r@ == observation_status(),
{
    "source_observation_only"
}

/// The limits of what a source-observation report claims.
pub open spec fn observation_claim_boundary() -> Seq<char> {
    "This report preserves a content-locked public map observation. It does not establish map completeness, legal access, indoor connectivity, geometry, elevation, widths, capacities, accessibility, demand, route choice, runtime validity, or any operational or safety outcome."@
}

/// The claim boundary a source-observation report records.
pub fn osm_observation_claim_boundary() -> (r: &'static str)
    ensures
        r@ == observation_claim_boundary(),
{
    "This report preserves a content-locked public map observation. It does not establish map completeness, legal access, indoor connectivity, geometry, elevation, widths, capacities, accessibility, demand, route choice, runtime validity, or any operational or safety outcome."
}

/// The coordinate reference a source-observation report records.
pub fn osm_geographic_coordinate_reference() -> (r: &'static str)
    ensures
        r@ == geographic_coordinate_reference(),
{
    "WGS84 geographic latitude/longitude copied from the OSM XML; this adapter does not project coordinates into scenario metres or infer elevations."
}

/// Whether a source-observation report, given by its recorded schema
/// version, status, coordinate reference, license and attribution, may be
/// projected.
pub open spec fn projection_source_accepted(
    schema_version: Seq<char>,
    status: Seq<char>,
    coordinate_reference: Seq<char>,
    license: Seq<char>,
    required_attribution: Seq<char>,
) -> bool {
    &&& schema_of_version(schema_version) is Some
    &&& status == observation_status()
    &&& coordinate_reference == geographic_coordinate_reference()
    &&& license == osm_license()
    &&& has_substring(required_attribution, required_osm_attribution())
}

pub open spec fn projection_source_error_is(
    e: OsmLayoutError,
    field: Seq<char>,
    expected: Seq<char>,
    actual: Seq<char>,
) -> bool {
    e matches OsmLayoutError::InvalidProjectionSourceReport { field: f, expected: x, actual: a }
        && f@ == field && x@ == expected && a@ == actual
}

fn projection_source_error(field: &str, expected: &str, actual: &str) -> (e: OsmLayoutError)
    ensures
        projection_source_error_is(e, field@, expected@, actual@),
{
    OsmLayoutError::InvalidProjectionSourceReport {
        field: owned(field),
        expected: owned(expected),
        actual: owned(actual),
    }
}

/// Check that a source-observation report may be projected; the first field
/// that does not hold is reported.
pub fn validate_projection_source_report(
    schema_version: &str,
    status: &str,
    coordinate_reference: &str,
    license: &str,
    required_attribution: &str,
) -> (r: Result<(), OsmLayoutError>)
    ensures
        r is Ok <==> projection_source_accepted(
            schema_version@,
            status@,
            coordinate_reference@,
            license@,
            required_attribution@,
        ),
        r matches Err(e) ==> if schema_of_version(schema_version@) is None {
            projection_source_error_is(e, "schema_version"@, "0.1 or 0.2"@, schema_version@)
        } else if status@ != observation_status() {
            projection_source_error_is(e, "status"@, observation_status(), status@)
        } else if coordinate_reference@ != geographic_coordinate_reference() {
            projection_source_error_is(
                e,
                "coordinate_reference"@,
                geographic_coordinate_reference(),
                coordinate_reference@,
            )
        } else if license@ != osm_license() {
            projection_source_error_is(e, "source.license"@, osm_license(), license@)
        } else {
            projection_source_error_is(
                e,
                "source.required_attribution"@,
                required_osm_attribution(),
                required_attribution@,
            )
        },
{
    if OsmObservationSchema::from_version(schema_version).is_err() {
        return Err(projection_source_error("schema_version", "0.1 or 0.2", schema_version));
    }
    let expected_status = osm_observation_status();
    if !text_eq(status, expected_status) {
        return Err(projection_source_error("status", expected_status, status));
    }
    let expected_reference = osm_geographic_coordinate_reference();
    if !text_eq(coordinate_reference, expected_reference) {
        return Err(
            projection_source_error("coordinate_reference", expected_reference, coordinate_reference),
        );
    }
    if !text_eq(license, "ODbL-1.0") {
        return Err(projection_source_error("source.license", "ODbL-1.0", license));
    }
    if !contains_text(required_attribution, "OpenStreetMap contributors") {
        return Err(
            projection_source_error(
                "source.required_attribution",
                "OpenStreetMap contributors",
                required_attribution,
            ),
        );
    }
    Ok(())
}

/// The last authoring obligation of a projection report, by schema.
pub open spec fn projection_final_boundary(schema: OsmObservationSchema) -> Seq<char> {
    match schema {
        OsmObservationSchema::LegacyBounds => "Do not treat projected way-bound corners as a walkable polygon, path, or projected extent. Author all scenario geometry, capacities, demand, releases, destinations, and behavioral assumptions explicitly, then run sensitivity studies for material best guesses."@,
        OsmObservationSchema::WayNodeSequences => "Do not treat a projected OSM way-node sequence as a walkable polygon, path, or projected extent. Author all scenario geometry, capacities, demand, releases, destinations, and behavioral assumptions explicitly, then run sensitivity studies for material best guesses."@,
    }
}

/// The authoring obligations a projection report lists.
pub open spec fn projection_authoring(schema: OsmObservationSchema) -> Seq<Seq<char>> {
    seq![
        "Confirm the source extract, ODbL obligations, and the stated OpenStreetMap attribution before reuse or publication."@,
        "Review whether the chosen tangent-plane origin and the source coordinate reference are suitable for the intended local authoring task."@,
        "Treat projected point coordinates as an authoring reference only; survey or otherwise verify every modeled boundary, obstacle, entrance, connector, elevation, width, direction, and accessibility property."@,
        projection_final_boundary(schema),
    ]
}

pub fn projection_required_authoring(schema: OsmObservationSchema) -> (r: Vec<String>)
    ensures
        crate::lexer::string_views(r@) == projection_authoring(schema),
{
    let final_boundary = match schema {
        OsmObservationSchema::LegacyBounds => "Do not treat projected way-bound corners as a walkable polygon, path, or projected extent. Author all scenario geometry, capacities, demand, releases, destinations, and behavioral assumptions explicitly, then run sensitivity studies for material best guesses.",
        OsmObservationSchema::WayNodeSequences => "Do not treat a projected OSM way-node sequence as a walkable polygon, path, or projected extent. Author all scenario geometry, capacities, demand, releases, destinations, and behavioral assumptions explicitly, then run sensitivity studies for material best guesses.",
    };
    let r = vec![
        owned("Confirm the source extract, ODbL obligations, and the stated OpenStreetMap attribution before reuse or publication."),
        owned("Review whether the chosen tangent-plane origin and the source coordinate reference are suitable for the intended local authoring task."),
        owned("Treat projected point coordinates as an authoring reference only; survey or otherwise verify every modeled boundary, obstacle, entrance, connector, elevation, width, direction, and accessibility property."),
        owned(final_boundary),
    ];
    proof {
        assert(crate::lexer::string_views(r@) =~= projection_authoring(schema));
    }
    r
}

/// The tags of one OSM object, as `(key, value)` pairs without repeated keys.
pub open spec fn tags_unique(tags: Seq<(String, String)>) -> bool {
    forall|i: int, j: int| 0 <= i < j < tags.len() ==> #[trigger] tags[i].0@ != #[trigger] tags[j].0@
}

/// The value of the tag `key`, if the object has one.
pub open spec fn tag_value(tags: Seq<(String, String)>, key: Seq<char>) -> Option<Seq<char>>
    decreases tags.len(),
{
    if tags.len() == 0 {
        None
    } else if tags[0].0@ == key {
        Some(tags[0].1@)
    } else {
        tag_value(tags.drop_first(), key)
    }
}

fn find_tag<'a>(tags: &'a Vec<(String, String)>, key: &str) -> (r: Option<&'a str>)
    ensures
        r matches Some(v) ==> tag_value(tags@, key@) == Some(v@),
        r is None ==> tag_value(tags@, key@) is None,
{
    let mut i: usize = 0;
    proof {
        assert(tags@.skip(0) =~= tags@);
    }
    while i < tags.len()
        invariant
            i <= tags@.len(),
            tag_value(tags@, key@) == tag_value(tags@.skip(i as int), key@),
        decreases tags@.len() - i,
    {
        proof {
            assert(tags@.skip(i as int)[0] == tags@[i as int]);
            assert(tags@.skip(i as int).drop_first() =~= tags@.skip(i + 1));
        }
        if text_eq(tags[i].0.as_str(), key) {
            return Some(tags[i].1.as_str());
        }
        i += 1;
    }
    None
}

/// Record one tag of an object under the inspection bound on tags per
/// object. A repeated key is an error; the tags are then left as they were.
pub fn insert_tag(
    tags: &mut Vec<(String, String)>,
    tag_count: &mut usize,
    id: i64,
    object_type: &str,
    key: String,
    value: String,
    limits: OsmInspectionLimits,
) -> (r: Result<(), OsmLayoutError>)
    requires
        *old(tag_count) <= limits.max_tags_per_object,
        tags_unique(old(tags)@),
    ensures
        tags_unique(final(tags)@),
        r is Ok <==> *old(tag_count) < limits.max_tags_per_object && tag_value(old(tags)@, key@) is None,
        r is Ok ==> final(tags)@ == old(tags)@.push((key, value)),
        r is Err ==> final(tags)@ == old(tags)@,
        *old(tag_count) == limits.max_tags_per_object ==> *final(tag_count) == *old(tag_count) && (r matches Err(e)
            && e matches OsmLayoutError::LimitExceeded { name, limit } && name@ == "max_tags_per_object"@
            && limit == limits.max_tags_per_object),
        *old(tag_count) < limits.max_tags_per_object ==> *final(tag_count) == *old(tag_count) + 1,
        *old(tag_count) < limits.max_tags_per_object && tag_value(old(tags)@, key@) is Some ==> (r matches Err(e)
            && e matches OsmLayoutError::DuplicateTag { object_type: t, id: i, key: k } && t@ == object_type@
            && i == id && k@ == key@),
{
    if *tag_count == limits.max_tags_per_object {
        return Err(
            OsmLayoutError::LimitExceeded {
                name: owned("max_tags_per_object"),
                limit: limits.max_tags_per_object,
            },
        );
    }
    *tag_count = *tag_count + 1;
    if find_tag(tags, key.as_str()).is_some() {
        return Err(
            OsmLayoutError::DuplicateTag { object_type: owned(object_type), id, key: key },
        );
    }
    proof {
        assert forall|i: int| 0 <= i < tags@.len() implies #[trigger] tags@[i].0@ != key@ by {
            if tags@[i].0@ == key@ {
                lemma_tag_value_found(tags@, key@, i);
            }
        }
    }
    tags.push((key, value));
    Ok(())
}

pub(crate) proof fn lemma_tag_value_found(tags: Seq<(String, String)>, key: Seq<char>, i: int)
    requires
        0 <= i < tags.len(),
        tags[i].0@ == key,
    ensures
        tag_value(tags, key) is Some,
    decreases i,
{
    if i > 0 && tags[0].0@ != key {
        lemma_tag_value_found(tags.drop_first(), key, i - 1);
    }
}

pub open spec fn push_if(s: Seq<Seq<char>>, flag: bool, item: Seq<char>) -> Seq<Seq<char>> {
    if flag {
        s.push(item)
    } else {
        s
    }
}

pub open spec fn selects_building(tags: Seq<(String, String)>) -> bool {
    (tag_value(tags, "building"@) matches Some(v) && v != "no"@) || tag_value(tags, "building:part"@) is Some
}

pub open spec fn tag_is(tags: Seq<(String, String)>, key: Seq<char>, value: Seq<char>) -> bool {
    tag_value(tags, key) == Some(value)
}

pub open spec fn selects_indoor_area(tags: Seq<(String, String)>) -> bool {
    tag_is(tags, "indoor"@, "area"@) || tag_is(tags, "indoor"@, "corridor"@) || tag_is(
        tags,
        "indoor"@,
        "room"@,
    )
}

pub open spec fn selects_pedestrian_way(tags: Seq<(String, String)>) -> bool {
    tag_is(tags, "highway"@, "footway"@) || tag_is(tags, "highway"@, "pedestrian"@)
}

pub open spec fn selects_platform(tags: Seq<(String, String)>) -> bool {
    tag_is(tags, "public_transport"@, "platform"@) || tag_is(tags, "railway"@, "platform"@)
}

pub open spec fn selects_station(tags: Seq<(String, String)>) -> bool {
    tag_is(tags, "public_transport"@, "station"@) || tag_is(tags, "railway"@, "station"@)
}

/// The pedestrian-layout categories that an object's tags select, in
/// alphabetical order.
pub open spec fn tag_categories(tags: Seq<(String, String)>) -> Seq<Seq<char>> {
    let s0 = push_if(Seq::empty(), selects_building(tags), "building"@);
    let s1 = push_if(s0, tag_is(tags, "highway"@, "elevator"@), "elevator"@);
    let s2 = push_if(s1, tag_value(tags, "entrance"@) is Some, "entrance"@);
    let s3 = push_if(s2, selects_indoor_area(tags), "indoor_area"@);
    let s4 = push_if(s3, selects_pedestrian_way(tags), "pedestrian_way"@);
    let s5 = push_if(s4, selects_platform(tags), "platform"@);
    let s6 = push_if(s5, selects_station(tags), "station"@);
    push_if(s6, tag_is(tags, "highway"@, "steps"@), "steps"@)
}

fn value_is(v: Option<&str>, w: &str) -> (r: bool)
    ensures
        r == (v matches Some(x) && x@ == w@),
{
    match v {
        Some(x) => text_eq(x, w),
        None => false,
    }
}

fn tag_equals(tags: &Vec<(String, String)>, key: &str, value: &str) -> (r: bool)
    ensures
        r == tag_is(tags@, key@, value@),
{
    value_is(find_tag(tags, key), value)
}

fn push_category(out: &mut Vec<String>, flag: bool, name: &str)
    ensures
        crate::lexer::string_views(final(out)@) == push_if(
            crate::lexer::string_views(old(out)@),
            flag,
            name@,
        ),
{
    if flag {
        let ghost before = out@;
        out.push(owned(name));
        proof {
            assert(crate::lexer::string_views(out@) =~= crate::lexer::string_views(before).push(
                name@,
            ));
        }
    }
}

/// The categories an object's tags select, if any.
pub fn classify(tags: &Vec<(String, String)>) -> (r: Option<Vec<String>>)
    ensures
        r is None <==> tag_categories(tags@).len() == 0,
        r matches Some(c) ==> crate::lexer::string_views(c@) == tag_categories(tags@),
{
    let building_tag = find_tag(tags, "building");
    let building = (building_tag.is_some() && !value_is(building_tag, "no")) || find_tag(
        tags,
        "building:part",
    ).is_some();
    let indoor_area = tag_equals(tags, "indoor", "area") || tag_equals(tags, "indoor", "corridor")
        || tag_equals(tags, "indoor", "room");
    let pedestrian_way = tag_equals(tags, "highway", "footway") || tag_equals(
        tags,
        "highway",
        "pedestrian",
    );
    let platform = tag_equals(tags, "public_transport", "platform") || tag_equals(
        tags,
        "railway",
        "platform",
    );
    let station = tag_equals(tags, "public_transport", "station") || tag_equals(
        tags,
        "railway",
        "station",
    );
    let mut categories: Vec<String> = Vec::new();
    proof {
        assert(crate::lexer::string_views(categories@) =~= Seq::<Seq<char>>::empty());
    }
    push_category(&mut categories, building, "building");
    push_category(&mut categories, tag_equals(tags, "highway", "elevator"), "elevator");
    push_category(&mut categories, find_tag(tags, "entrance").is_some(), "entrance");
    push_category(&mut categories, indoor_area, "indoor_area");
    push_category(&mut categories, pedestrian_way, "pedestrian_way");
    push_category(&mut categories, platform, "platform");
    push_category(&mut categories, station, "station");
    push_category(&mut categories, tag_equals(tags, "highway", "steps"), "steps");
    if categories.len() == 0 {
        None
    } else {
        Some(categories)
    }
}

/// The tag keys a layout report keeps.
pub open spec fn is_relevant_tag_key(key: Seq<char>) -> bool {
    ||| key == "building"@
    ||| key == "building:part"@
    ||| key == "conveying"@
    ||| key == "entrance"@
    ||| key == "highway"@
    ||| key == "indoor"@
    ||| key == "level"@
    ||| key == "name"@
    ||| key == "public_transport"@
    ||| key == "railway"@
    ||| key == "ref"@
    ||| key == "wheelchair"@
}

/// The tags with a relevant key, in their order.
pub open spec fn relevant_tag_views(tags: Seq<(String, String)>) -> Seq<(Seq<char>, Seq<char>)>
    decreases tags.len(),
{
    if tags.len() == 0 {
        Seq::empty()
    } else {
        let before = relevant_tag_views(tags.drop_last());
        if is_relevant_tag_key(tags.last().0@) {
            before.push((tags.last().0@, tags.last().1@))
        } else {
            before
        }
    }
}

pub open spec fn tag_views(tags: Seq<(String, String)>) -> Seq<(Seq<char>, Seq<char>)> {
    tags.map_values(|t: (String, String)| (t.0@, t.1@))
}

fn relevant_key(key: &str) -> (r: bool)
    ensures
        r == is_relevant_tag_key(key@),
{
    text_eq(key, "building") || text_eq(key, "building:part") || text_eq(key, "conveying")
        || text_eq(key, "entrance") || text_eq(key, "highway") || text_eq(key, "indoor") || text_eq(
        key,
        "level",
    ) || text_eq(key, "name") || text_eq(key, "public_transport") || text_eq(key, "railway")
        || text_eq(key, "ref") || text_eq(key, "wheelchair")
}

/// The tags a layout report keeps of an object.
pub fn relevant_tags(tags: &Vec<(String, String)>) -> (r: Vec<(String, String)>)
    ensures
        tag_views(r@) == relevant_tag_views(tags@),
{
    let mut out: Vec<(String, String)> = Vec::new();
    let mut i: usize = 0;
    while i < tags.len()
        invariant
            i <= tags@.len(),
            tag_views(out@) == relevant_tag_views(tags@.take(i as int)),
        decreases tags@.len() - i,
    {
        proof {
            assert(tags@.take(i + 1).drop_last() =~= tags@.take(i as int));
            assert(tags@.take(i + 1).last() == tags@[i as int]);
        }
        if relevant_key(tags[i].0.as_str()) {
            let ghost before = out@;
            out.push((owned(tags[i].0.as_str()), owned(tags[i].1.as_str())));
            proof {
                assert(tag_views(out@) =~= tag_views(before).push((tags@[i as int].0@, tags@[i as int].1@)));
            }
        }
        i += 1;
    }
    proof {
        assert(tags@.take(tags@.len() as int) =~= tags@);
    }
    out
}

/// The number of selected features of each category.
#[derive(Debug, Clone, Copy, PartialEq, Eq, Structural)]
pub struct CategoryCounts {
    pub building: u64,
    pub elevator: u64,
    pub entrance: u64,
    pub indoor_area: u64,
    pub pedestrian_way: u64,
    pub platform: u64,
    pub station: u64,
    pub steps: u64,
}

/// The categories that [`classify`] names.
pub open spec fn is_category_name(c: Seq<char>) -> bool {
    ||| c == "building"@
    ||| c == "elevator"@
    ||| c == "entrance"@
    ||| c == "indoor_area"@
    ||| c == "pedestrian_way"@
    ||| c == "platform"@
    ||| c == "station"@
    ||| c == "steps"@
}

/// How often `name` occurs in `names`.
pub open spec fn occurrences(names: Seq<Seq<char>>, name: Seq<char>) -> nat
    decreases names.len(),
{
    if names.len() == 0 {
        0
    } else {
        occurrences(names.drop_last(), name) + if names.last() == name {
            1nat
        } else {
            0nat
        }
    }
}

/// What a layout inspection parsed and selected.
#[derive(Debug, Clone, Copy, PartialEq, Eq, Structural)]
pub struct OsmLayoutCounts {
    pub parsed_nodes: u64,
    pub parsed_ways: u64,
    pub selected_node_features: u64,
    pub selected_way_features: u64,
    /// Categories never selected count zero and are left out of a report.
    pub selected_features_by_category: CategoryCounts,
}

impl Default for OsmLayoutCounts {
    fn default() -> (r: Self)
        ensures
            r.parsed_nodes == 0 && r.parsed_ways == 0 && r.selected_node_features == 0
                && r.selected_way_features == 0,
            r.selected_features_by_category == (CategoryCounts {
                building: 0,
                elevator: 0,
                entrance: 0,
                indoor_area: 0,
                pedestrian_way: 0,
                platform: 0,
                station: 0,
                steps: 0,
            }),
    {
        OsmLayoutCounts {
            parsed_nodes: 0,
            parsed_ways: 0,
            selected_node_features: 0,
            selected_way_features: 0,
            selected_features_by_category: CategoryCounts {
                building: 0,
                elevator: 0,
                entrance: 0,
                indoor_area: 0,
                pedestrian_way: 0,
                platform: 0,
                station: 0,
                steps: 0,
            },
        }
    }
}

/// The category counts after one more feature of each of `names`.
pub open spec fn counts_after(c: CategoryCounts, names: Seq<Seq<char>>) -> CategoryCounts {
    CategoryCounts {
        building: (c.building + occurrences(names, "building"@)) as u64,
        elevator: (c.elevator + occurrences(names, "elevator"@)) as u64,
        entrance: (c.entrance + occurrences(names, "entrance"@)) as u64,
        indoor_area: (c.indoor_area + occurrences(names, "indoor_area"@)) as u64,
        pedestrian_way: (c.pedestrian_way + occurrences(names, "pedestrian_way"@)) as u64,
        platform: (c.platform + occurrences(names, "platform"@)) as u64,
        station: (c.station + occurrences(names, "station"@)) as u64,
        steps: (c.steps + occurrences(names, "steps"@)) as u64,
    }
}

/// Whether each count, raised by the occurrences in `names`, stays a `u64`.
pub open spec fn counts_fit(c: CategoryCounts, names: Seq<Seq<char>>) -> bool {
    &&& c.building + occurrences(names, "building"@) <= u64::MAX
    &&& c.elevator + occurrences(names, "elevator"@) <= u64::MAX
    &&& c.entrance + occurrences(names, "entrance"@) <= u64::MAX
    &&& c.indoor_area + occurrences(names, "indoor_area"@) <= u64::MAX
    &&& c.pedestrian_way + occurrences(names, "pedestrian_way"@) <= u64::MAX
    &&& c.platform + occurrences(names, "platform"@) <= u64::MAX
    &&& c.station + occurrences(names, "station"@) <= u64::MAX
    &&& c.steps + occurrences(names, "steps"@) <= u64::MAX
}

proof fn lemma_occurrences_prefix(names: Seq<Seq<char>>, i: int, name: Seq<char>)
    requires
        0 <= i <= names.len(),
    ensures
        occurrences(names.take(i), name) <= occurrences(names, name),
    decreases names.len() - i,
{
    if i < names.len() {
        lemma_occurrences_prefix(names, i + 1, name);
        assert(names.take(i + 1).drop_last() =~= names.take(i));
    } else {
        assert(names.take(i) =~= names);
    }
}

/// What one more optional category adds to a list.
proof fn lemma_push_if_contains(s: Seq<Seq<char>>, flag: bool, item: Seq<char>, name: Seq<char>)
    ensures
        push_if(s, flag, item).contains(name) <==> s.contains(name) || (flag && item == name),
{
    if flag {
        let t = s.push(item);
        if s.contains(name) {
            let k = choose|k: int| 0 <= k < s.len() && s[k] == name;
            assert(t[k] == name);
        }
        if item == name {
            assert(t[s.len() as int] == name);
        }
        if t.contains(name) {
            let k = choose|k: int| 0 <= k < t.len() && t[k] == name;
            if k < s.len() {
                assert(s[k] == name);
            }
        }
    }
}

/// The categories an object's tags select, each exactly when its tags say
/// so: a `building` other than `no` or any `building:part`; a highway
/// `elevator`; any `entrance`; an `indoor` area, corridor or room; a
/// highway `footway` or `pedestrian`; a public-transport or railway
/// `platform`; a public-transport or railway `station`; a highway `steps`.
#[verifier::spinoff_prover]
#[verifier::rlimit(60)]
pub proof fn lemma_categories_of_tags(tags: Seq<(String, String)>)
    ensures
        tag_categories(tags).contains("building"@) <==> ((tag_value(tags, "building"@) matches Some(v) && v
            != "no"@) || tag_value(tags, "building:part"@) is Some),
        tag_categories(tags).contains("elevator"@) <==> tag_value(tags, "highway"@) == Some("elevator"@),
        tag_categories(tags).contains("entrance"@) <==> tag_value(tags, "entrance"@) is Some,
        tag_categories(tags).contains("indoor_area"@) <==> (tag_value(tags, "indoor"@) == Some("area"@)
            || tag_value(tags, "indoor"@) == Some("corridor"@) || tag_value(tags, "indoor"@) == Some(
            "room"@,
        )),
        tag_categories(tags).contains("pedestrian_way"@) <==> (tag_value(tags, "highway"@) == Some(
            "footway"@,
        ) || tag_value(tags, "highway"@) == Some("pedestrian"@)),
        tag_categories(tags).contains("platform"@) <==> (tag_value(tags, "public_transport"@) == Some(
            "platform"@,
        ) || tag_value(tags, "railway"@) == Some("platform"@)),
        tag_categories(tags).contains("station"@) <==> (tag_value(tags, "public_transport"@) == Some(
            "station"@,
        ) || tag_value(tags, "railway"@) == Some("station"@)),
        tag_categories(tags).contains("steps"@) <==> tag_value(tags, "highway"@) == Some("steps"@),
{
    lemma_category_names_distinct();
    let s0 = push_if(Seq::empty(), selects_building(tags), "building"@);
    let s1 = push_if(s0, tag_is(tags, "highway"@, "elevator"@), "elevator"@);
    let s2 = push_if(s1, tag_value(tags, "entrance"@) is Some, "entrance"@);
    let s3 = push_if(s2, selects_indoor_area(tags), "indoor_area"@);
    let s4 = push_if(s3, selects_pedestrian_way(tags), "pedestrian_way"@);
    let s5 = push_if(s4, selects_platform(tags), "platform"@);
    let s6 = push_if(s5, selects_station(tags), "station"@);
    let s7 = push_if(s6, tag_is(tags, "highway"@, "steps"@), "steps"@);
    assert(tag_categories(tags) == s7);
    let names = seq!["building"@, "elevator"@, "entrance"@, "indoor_area"@, "pedestrian_way"@, "platform"@, "station"@, "steps"@];
    let e = Seq::<Seq<char>>::empty();
    assert forall|n: Seq<char>| #[trigger] names.contains(n) implies {
        &&& s7.contains(n) <==> (selects_building(tags) && n == "building"@) || (tag_is(tags, "highway"@, "elevator"@) && n == "elevator"@)
            || (tag_value(tags, "entrance"@) is Some && n == "entrance"@) || (selects_indoor_area(tags) && n == "indoor_area"@)
            || (selects_pedestrian_way(tags) && n == "pedestrian_way"@) || (selects_platform(tags) && n == "platform"@)
            || (selects_station(tags) && n == "station"@) || (tag_is(tags, "highway"@, "steps"@) && n == "steps"@)
    } by {
        assert(!e.contains(n));
        lemma_push_if_contains(e, selects_building(tags), "building"@, n);
        lemma_push_if_contains(s0, tag_is(tags, "highway"@, "elevator"@), "elevator"@, n);
        lemma_push_if_contains(s1, tag_value(tags, "entrance"@) is Some, "entrance"@, n);
        lemma_push_if_contains(s2, selects_indoor_area(tags), "indoor_area"@, n);
        lemma_push_if_contains(s3, selects_pedestrian_way(tags), "pedestrian_way"@, n);
        lemma_push_if_contains(s4, selects_platform(tags), "platform"@, n);
        lemma_push_if_contains(s5, selects_station(tags), "station"@, n);
        lemma_push_if_contains(s6, tag_is(tags, "highway"@, "steps"@), "steps"@, n);
    }
    assert(names.contains("building"@)) by { assert(names[0] == "building"@); }
    assert(names.contains("elevator"@)) by { assert(names[1] == "elevator"@); }
    assert(names.contains("entrance"@)) by { assert(names[2] == "entrance"@); }
    assert(names.contains("indoor_area"@)) by { assert(names[3] == "indoor_area"@); }
    assert(names.contains("pedestrian_way"@)) by { assert(names[4] == "pedestrian_way"@); }
    assert(names.contains("platform"@)) by { assert(names[5] == "platform"@); }
    assert(names.contains("station"@)) by { assert(names[6] == "station"@); }
    assert(names.contains("steps"@)) by { assert(names[7] == "steps"@); }
}

pub(crate) proof fn lemma_category_names_distinct()
    ensures
        "building"@ != "elevator"@,
        "building"@ != "entrance"@,
        "building"@ != "indoor_area"@,
        "building"@ != "pedestrian_way"@,
        "building"@ != "platform"@,
        "building"@ != "station"@,
        "building"@ != "steps"@,
        "elevator"@ != "entrance"@,
        "elevator"@ != "indoor_area"@,
        "elevator"@ != "pedestrian_way"@,
        "elevator"@ != "platform"@,
        "elevator"@ != "station"@,
        "elevator"@ != "steps"@,
        "entrance"@ != "indoor_area"@,
        "entrance"@ != "pedestrian_way"@,
        "entrance"@ != "platform"@,
        "entrance"@ != "station"@,
        "entrance"@ != "steps"@,
        "indoor_area"@ != "pedestrian_way"@,
        "indoor_area"@ != "platform"@,
        "indoor_area"@ != "station"@,
        "indoor_area"@ != "steps"@,
        "pedestrian_way"@ != "platform"@,
        "pedestrian_way"@ != "station"@,
        "pedestrian_way"@ != "steps"@,
        "platform"@ != "station"@,
        "platform"@ != "steps"@,
        "station"@ != "steps"@,
{
    reveal_strlit("building");
    reveal_strlit("elevator");
    reveal_strlit("entrance");
    reveal_strlit("indoor_area");
    reveal_strlit("pedestrian_way");
    reveal_strlit("platform");
    reveal_strlit("station");
    reveal_strlit("steps");
    assert("building"@.len() == 8 && "building"@[0] == 'b' && "building"@[1] == 'u');
    assert("elevator"@.len() == 8 && "elevator"@[0] == 'e' && "elevator"@[1] == 'l');
    assert("entrance"@.len() == 8 && "entrance"@[0] == 'e' && "entrance"@[1] == 'n');
    assert("indoor_area"@.len() == 11 && "indoor_area"@[0] == 'i' && "indoor_area"@[1] == 'n');
    assert("pedestrian_way"@.len() == 14 && "pedestrian_way"@[0] == 'p' && "pedestrian_way"@[1] == 'e');
    assert("platform"@.len() == 8 && "platform"@[0] == 'p' && "platform"@[1] == 'l');
    assert("station"@.len() == 7 && "station"@[0] == 's' && "station"@[1] == 't');
    assert("steps"@.len() == 5 && "steps"@[0] == 's' && "steps"@[1] == 't');
}

/// Count one selected feature under each of its categories.
pub fn increment_categories(counts: &mut OsmLayoutCounts, categories: &Vec<String>)
    requires
        forall|i: int| 0 <= i < categories@.len() ==> is_category_name(#[trigger] categories@[i]@),
        counts_fit(
            old(counts).selected_features_by_category,
            crate::lexer::string_views(categories@),
        ),
    ensures
        final(counts).parsed_nodes == old(counts).parsed_nodes,
        final(counts).parsed_ways == old(counts).parsed_ways,
        final(counts).selected_node_features == old(counts).selected_node_features,
        final(counts).selected_way_features == old(counts).selected_way_features,
        final(counts).selected_features_by_category == counts_after(
            old(counts).selected_features_by_category,
            crate::lexer::string_views(categories@),
        ),
{
    let ghost names = crate::lexer::string_views(categories@);
    let ghost start = counts.selected_features_by_category;
    let mut i: usize = 0;
    while i < categories.len()
        invariant
            names == crate::lexer::string_views(categories@),
            names.len() == categories@.len(),
            forall|q: int| 0 <= q < categories@.len() ==> is_category_name(#[trigger] categories@[q]@),
            counts_fit(start, names),
            i <= categories@.len(),
            counts.parsed_nodes == old(counts).parsed_nodes,
            counts.parsed_ways == old(counts).parsed_ways,
            counts.selected_node_features == old(counts).selected_node_features,
            counts.selected_way_features == old(counts).selected_way_features,
            start == old(counts).selected_features_by_category,
            counts.selected_features_by_category == counts_after(start, names.take(i as int)),
        decreases categories@.len() - i,
    {
        proof {
            assert(names.take(i + 1).drop_last() =~= names.take(i as int));
            assert(names.take(i + 1).last() == categories@[i as int]@);
            lemma_occurrences_prefix(names, i + 1, "building"@);
            lemma_occurrences_prefix(names, i + 1, "elevator"@);
            lemma_occurrences_prefix(names, i + 1, "entrance"@);
            lemma_occurrences_prefix(names, i + 1, "indoor_area"@);
            lemma_occurrences_prefix(names, i + 1, "pedestrian_way"@);
            lemma_occurrences_prefix(names, i + 1, "platform"@);
            lemma_occurrences_prefix(names, i + 1, "station"@);
            lemma_occurrences_prefix(names, i + 1, "steps"@);
            lemma_category_names_distinct();
            assert(occurrences(names.take(i + 1), "building"@) == occurrences(names.take(i as int), "building"@) + if names[i as int] == "building"@ { 1nat } else { 0nat });
            assert(occurrences(names.take(i + 1), "elevator"@) == occurrences(names.take(i as int), "elevator"@) + if names[i as int] == "elevator"@ { 1nat } else { 0nat });
            assert(occurrences(names.take(i + 1), "entrance"@) == occurrences(names.take(i as int), "entrance"@) + if names[i as int] == "entrance"@ { 1nat } else { 0nat });
            assert(occurrences(names.take(i + 1), "indoor_area"@) == occurrences(names.take(i as int), "indoor_area"@) + if names[i as int] == "indoor_area"@ { 1nat } else { 0nat });
            assert(occurrences(names.take(i + 1), "pedestrian_way"@) == occurrences(names.take(i as int), "pedestrian_way"@) + if names[i as int] == "pedestrian_way"@ { 1nat } else { 0nat });
            assert(occurrences(names.take(i + 1), "platform"@) == occurrences(names.take(i as int), "platform"@) + if names[i as int] == "platform"@ { 1nat } else { 0nat });
            assert(occurrences(names.take(i + 1), "station"@) == occurrences(names.take(i as int), "station"@) + if names[i as int] == "station"@ { 1nat } else { 0nat });
            assert(occurrences(names.take(i + 1), "steps"@) == occurrences(names.take(i as int), "steps"@) + if names[i as int] == "steps"@ { 1nat } else { 0nat });
        }
        let c = categories[i].as_str();
        let mut by = counts.selected_features_by_category;
        if text_eq(c, "building") {
            by.building = by.building + 1;
        } else if text_eq(c, "elevator") {
            by.elevator = by.elevator + 1;
        } else if text_eq(c, "entrance") {
            by.entrance = by.entrance + 1;
        } else if text_eq(c, "indoor_area") {
            by.indoor_area = by.indoor_area + 1;
        } else if text_eq(c, "pedestrian_way") {
            by.pedestrian_way = by.pedestrian_way + 1;
        } else if text_eq(c, "platform") {
            by.platform = by.platform + 1;
        } else if text_eq(c, "station") {
            by.station = by.station + 1;
        } else {
            by.steps = by.steps + 1;
        }
        counts.selected_features_by_category = by;
        i += 1;
    }
    proof {
        assert(names.take(categories@.len() as int) =~= names);
    }
}

/// The limits a report records give back exactly the limits it was made
/// with: every recorded bound fits a `usize`, and no two limits record alike.
pub proof fn lemma_limits_report_round_trip(limits: OsmInspectionLimits, other: OsmInspectionLimits)
    ensures
        limits_report(limits).max_nodes <= usize::MAX,
        limits_report(limits).max_ways <= usize::MAX,
        limits_report(limits).max_node_references_per_way <= usize::MAX,
        limits_report(limits).max_tags_per_object <= usize::MAX,
        limits_report(other) == limits_report(limits) ==> other == limits,
{
}

/// Reading a schema's recorded version gives the schema back.
pub proof fn lemma_schema_version_round_trip(schema: OsmObservationSchema)
    ensures
        schema_of_version(schema_version_text(schema)) == Some(schema),
{
    reveal_strlit("0.1");
    reveal_strlit("0.2");
    assert("0.1"@[2] == '1' && "0.2"@[2] == '2');
}

} // verus!
