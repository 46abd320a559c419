//! Inspection of an OpenStreetMap XML extract, read as a stream of element
//! boundaries: the resource bounds, the node and way builders, duplicate
//! detection, tag selection and the selected features in report order.
//!
//! The document's bytes are read into elements here, through the `xml`
//! crate. A node's coordinates are never read here: the caller checks that
//! `lat` and `lon` are finite degrees in range and keeps the values; a
//! feature refers to a node's coordinates by the node's ordinal, its position
//! among all the `node` elements of the document.

use vstd::prelude::*;
use xml::reader::{ParserConfig, XmlEvent};
use std::collections::BTreeMap;
use std::collections::BTreeSet;
use crate::layout::{
    classify, counts_after, counts_fit, increment_categories, insert_tag, is_category_name,
    relevant_tag_views, relevant_tags, tag_categories, tag_value, tag_views, tags_unique,
    occurrences, push_if, CategoryCounts, OsmInspectionLimits, OsmLayoutCounts, OsmLayoutError,
    OsmObservationSchema,
};
use crate::lexer::string_views;
use crate::literal::{parse_i64_literal, signed_literal};
use crate::text::{chars_of, owned, text_eq};

verus! {

broadcast use vstd::laws_cmp::group_laws_cmp;

/// One element boundary of an OSM XML document. For a start tag the reader
/// also says whether the `lat` and `lon` attributes, where present, hold
/// finite degrees within [-90, 90] and [-180, 180]; only a `node` start
/// consults these.
#[derive(Debug, Clone)]
pub enum OsmXmlEvent {
    Start {
        name: String,
        attributes: Vec<(String, String)>,
        latitude_in_range: bool,
        longitude_in_range: bool,
    },
    End { name: String },
}

/// Why an inspection stopped, with the data its error carries.
pub enum ScanFailure {
    WrongRoot,
    LimitExceeded { name: Seq<char>, limit: usize },
    MissingAttribute { element: Seq<char>, attribute: Seq<char> },
    InvalidAttribute { element: Seq<char>, attribute: Seq<char>, value: Seq<char> },
    DuplicateIdentifier { object_type: Seq<char>, id: i64 },
    DuplicateTag { object_type: Seq<char>, id: i64, key: Seq<char> },
    MissingNodeReference { way_id: i64, node_id: i64 },
}

/// `e` is the error that reports `f` for the document at `path`.
pub open spec fn failure_is(e: OsmLayoutError, f: ScanFailure, path: Seq<char>) -> bool {
    match f {
        ScanFailure::WrongRoot => e matches OsmLayoutError::WrongRoot { path: p } && p@ == path,
        ScanFailure::LimitExceeded { name, limit } => e matches OsmLayoutError::LimitExceeded {
            name: n,
            limit: l,
        } && n@ == name && l == limit,
        ScanFailure::MissingAttribute { element, attribute } => e matches OsmLayoutError::MissingAttribute {
            element: el,
            attribute: a,
        } && el@ == element && a@ == attribute,
        ScanFailure::InvalidAttribute { element, attribute, value } => e matches OsmLayoutError::InvalidAttribute {
            element: el,
            attribute: a,
            value: v,
        } && el@ == element && a@ == attribute && v@ == value,
        ScanFailure::DuplicateIdentifier { object_type, id } => e matches OsmLayoutError::DuplicateIdentifier {
            object_type: t,
            id: i,
        } && t@ == object_type && i == id,
        ScanFailure::DuplicateTag { object_type, id, key } => e matches OsmLayoutError::DuplicateTag {
            object_type: t,
            id: i,
            key: k,
        } && t@ == object_type && i == id && k@ == key,
        ScanFailure::MissingNodeReference { way_id, node_id } => e matches OsmLayoutError::MissingNodeReference {
            way_id: w,
            node_id: n,
        } && w == way_id && n == node_id,
    }
}

/// The value of the first attribute called `name`.
pub open spec fn attribute_value(attributes: Seq<(String, String)>, name: Seq<char>) -> Option<String>
    decreases attributes.len(),
{
    if attributes.len() == 0 {
        None
    } else if attributes[0].0@ == name {
        Some(attributes[0].1)
    } else {
        attribute_value(attributes.drop_first(), name)
    }
}

/// An OSM identifier: a signed decimal integer that fits in an `i64`.
pub open spec fn identifier_value(text: Seq<char>) -> Option<i64> {
    match signed_literal(text) {
        Some(n) => if i64::MIN <= n <= i64::MAX {
            Some(n as i64)
        } else {
            None
        },
        None => None,
    }
}

/// The identifier in attribute `name` of an `element`.
pub open spec fn identifier_attribute(
    attributes: Seq<(String, String)>,
    element: Seq<char>,
    name: Seq<char>,
) -> Result<i64, ScanFailure> {
    match attribute_value(attributes, name) {
        None => Err(ScanFailure::MissingAttribute { element, attribute: name }),
        Some(v) => match identifier_value(v@) {
            Some(id) => Ok(id),
            None => Err(ScanFailure::InvalidAttribute { element, attribute: name, value: v@ }),
        },
    }
}

/// A node coordinate attribute must be present and in range.
pub open spec fn coordinate_attribute(
    attributes: Seq<(String, String)>,
    name: Seq<char>,
    in_range: bool,
) -> Result<(), ScanFailure> {
    match attribute_value(attributes, name) {
        None => Err(ScanFailure::MissingAttribute { element: "node"@, attribute: name }),
        Some(v) => if in_range {
            Ok(())
        } else {
            Err(ScanFailure::InvalidAttribute { element: "node"@, attribute: name, value: v@ })
        },
    }
}

/// A node while its element is open.
pub struct NodeDraft {
    pub id: i64,
    pub ordinal: usize,
    pub tags: Seq<(String, String)>,
    pub tag_count: usize,
}

/// A way while its element is open.
pub struct WayDraft {
    pub id: i64,
    pub refs: Seq<i64>,
    pub tags: Seq<(String, String)>,
    pub tag_count: usize,
}

/// What the element stream has established so far.
pub struct ScanModel {
    pub root_seen: bool,
    /// The ordinal of each closed node, by identifier.
    pub nodes: Map<i64, usize>,
    /// The closed nodes whose tags select a category, in document order.
    pub selected_nodes: Seq<NodeDraft>,
    /// The closed ways whose tags select a category, in document order.
    pub selected_ways: Seq<WayDraft>,
    pub counts: OsmLayoutCounts,
    pub node: Option<NodeDraft>,
    pub way: Option<WayDraft>,
}

/// The empty category counts.
pub open spec fn no_categories() -> CategoryCounts {
    CategoryCounts {
        building: 0,
        elevator: 0,
        entrance: 0,
        indoor_area: 0,
        pedestrian_way: 0,
        platform: 0,
        station: 0,
        steps: 0,
    }
}

/// The state before the first event.
pub open spec fn scan_start() -> ScanModel {
    ScanModel {
        root_seen: false,
        nodes: Map::empty(),
        selected_nodes: Seq::empty(),
        selected_ways: Seq::empty(),
        counts: OsmLayoutCounts {
            parsed_nodes: 0,
            parsed_ways: 0,
            selected_node_features: 0,
            selected_way_features: 0,
            selected_features_by_category: no_categories(),
        },
        node: None,
        way: None,
    }
}

/// One more tag on an open object, under the bound on tags per object.
pub open spec fn tag_insert(
    tags: Seq<(String, String)>,
    tag_count: usize,
    id: i64,
    object_type: Seq<char>,
    key: String,
    value: String,
    limits: OsmInspectionLimits,
) -> Result<(Seq<(String, String)>, usize), ScanFailure> {
    if tag_count >= limits.max_tags_per_object {
        Err(ScanFailure::LimitExceeded { name: "max_tags_per_object"@, limit: limits.max_tags_per_object })
    } else if tag_value(tags, key@) is Some {
        Err(ScanFailure::DuplicateTag { object_type, id, key: key@ })
    } else {
        Ok((tags.push((key, value)), (tag_count + 1) as usize))
    }
}

/// A `node` start tag: count it under the node bound and open it.
pub open spec fn node_start(
    m: ScanModel,
    attributes: Seq<(String, String)>,
    latitude_in_range: bool,
    longitude_in_range: bool,
    limits: OsmInspectionLimits,
) -> Result<ScanModel, ScanFailure> {
    if m.counts.parsed_nodes >= limits.max_nodes {
        Err(ScanFailure::LimitExceeded { name: "max_nodes"@, limit: limits.max_nodes })
    } else {
        match identifier_attribute(attributes, "node"@, "id"@) {
            Err(f) => Err(f),
            Ok(id) => match coordinate_attribute(attributes, "lat"@, latitude_in_range) {
                Err(f) => Err(f),
                Ok(_) => match coordinate_attribute(attributes, "lon"@, longitude_in_range) {
                    Err(f) => Err(f),
                    Ok(_) => Ok(
                        ScanModel {
                            counts: OsmLayoutCounts {
                                parsed_nodes: (m.counts.parsed_nodes + 1) as u64,
                                ..m.counts
                            },
                            node: Some(
                                NodeDraft {
                                    id,
                                    ordinal: m.counts.parsed_nodes as usize,
                                    tags: Seq::empty(),
                                    tag_count: 0,
                                },
                            ),
                            ..m
                        },
                    ),
                },
            },
        }
    }
}

/// A `way` start tag: count it under the way bound and open it.
pub open spec fn way_start(
    m: ScanModel,
    attributes: Seq<(String, String)>,
    limits: OsmInspectionLimits,
) -> Result<ScanModel, ScanFailure> {
    if m.counts.parsed_ways >= limits.max_ways {
        Err(ScanFailure::LimitExceeded { name: "max_ways"@, limit: limits.max_ways })
    } else {
        match identifier_attribute(attributes, "way"@, "id"@) {
            Err(f) => Err(f),
            Ok(id) => Ok(
                ScanModel {
                    counts: OsmLayoutCounts { parsed_ways: (m.counts.parsed_ways + 1) as u64, ..m.counts },
                    way: Some(WayDraft { id, refs: Seq::empty(), tags: Seq::empty(), tag_count: 0 }),
                    ..m
                },
            ),
        }
    }
}

/// A `tag` start tag: both `k` and `v` are required; the tag belongs to the
/// open node, else to the open way, else to nothing.
pub open spec fn tag_start(
    m: ScanModel,
    attributes: Seq<(String, String)>,
    limits: OsmInspectionLimits,
) -> Result<ScanModel, ScanFailure> {
    match attribute_value(attributes, "k"@) {
        None => Err(ScanFailure::MissingAttribute { element: "tag"@, attribute: "k"@ }),
        Some(k) => match attribute_value(attributes, "v"@) {
            None => Err(ScanFailure::MissingAttribute { element: "tag"@, attribute: "v"@ }),
            Some(v) => match m.node {
                Some(d) => match tag_insert(d.tags, d.tag_count, d.id, "node"@, k, v, limits) {
                    Err(f) => Err(f),
                    Ok(t) => Ok(
                        ScanModel { node: Some(NodeDraft { tags: t.0, tag_count: t.1, ..d }), ..m },
                    ),
                },
                None => match m.way {
                    Some(w) => match tag_insert(w.tags, w.tag_count, w.id, "way"@, k, v, limits) {
                        Err(f) => Err(f),
                        Ok(t) => Ok(
                            ScanModel { way: Some(WayDraft { tags: t.0, tag_count: t.1, ..w }), ..m },
                        ),
                    },
                    None => Ok(m),
                },
            },
        },
    }
}

/// An `nd` start tag: a node reference of the open way, under the bound on
/// references per way.
pub open spec fn nd_start(
    m: ScanModel,
    attributes: Seq<(String, String)>,
    limits: OsmInspectionLimits,
) -> Result<ScanModel, ScanFailure> {
    match m.way {
        None => Ok(m),
        Some(w) => if w.refs.len() >= limits.max_node_references_per_way {
            Err(
                ScanFailure::LimitExceeded {
                    name: "max_node_references_per_way"@,
                    limit: limits.max_node_references_per_way,
                },
            )
        } else {
            match identifier_attribute(attributes, "nd"@, "ref"@) {
                Err(f) => Err(f),
                Ok(r) => Ok(ScanModel { way: Some(WayDraft { refs: w.refs.push(r), ..w }), ..m }),
            }
        },
    }
}

/// A start tag. The first one must be `osm`, and `osm` may open nothing else.
pub open spec fn start_event(
    m: ScanModel,
    name: Seq<char>,
    attributes: Seq<(String, String)>,
    latitude_in_range: bool,
    longitude_in_range: bool,
    limits: OsmInspectionLimits,
) -> Result<ScanModel, ScanFailure> {
    let root_start = !m.root_seen;
    if root_start && name != "osm"@ {
        Err(ScanFailure::WrongRoot)
    } else {
        let m1 = ScanModel { root_seen: true, ..m };
        if name == "osm"@ {
            if !root_start || m.node is Some || m.way is Some {
                Err(ScanFailure::WrongRoot)
            } else {
                Ok(m1)
            }
        } else if name == "node"@ {
            node_start(m1, attributes, latitude_in_range, longitude_in_range, limits)
        } else if name == "way"@ {
            way_start(m1, attributes, limits)
        } else if name == "tag"@ {
            tag_start(m1, attributes, limits)
        } else if name == "nd"@ {
            nd_start(m1, attributes, limits)
        } else {
            Ok(m1)
        }
    }
}

/// An end tag. A closing node must have a fresh identifier; it is recorded,
/// and kept as a feature when its tags select a category. A closing way is
/// kept when its tags select a category.
pub open spec fn end_event(m: ScanModel, name: Seq<char>) -> Result<ScanModel, ScanFailure> {
    if name == "node"@ {
        match m.node {
            None => Ok(m),
            Some(d) => if m.nodes.contains_key(d.id) {
                Err(ScanFailure::DuplicateIdentifier { object_type: "node"@, id: d.id })
            } else {
                let m1 = ScanModel { node: None, nodes: m.nodes.insert(d.id, d.ordinal), ..m };
                let categories = tag_categories(d.tags);
                if categories.len() > 0 {
                    Ok(
                        ScanModel {
                            selected_nodes: m.selected_nodes.push(d),
                            counts: OsmLayoutCounts {
                                selected_node_features: (m.counts.selected_node_features + 1) as u64,
                                selected_features_by_category: counts_after(
                                    m.counts.selected_features_by_category,
                                    categories,
                                ),
                                ..m.counts
                            },
                            ..m1
                        },
                    )
                } else {
                    Ok(m1)
                }
            },
        }
    } else if name == "way"@ {
        match m.way {
            None => Ok(m),
            Some(w) => Ok(
                ScanModel {
                    way: None,
                    selected_ways: if tag_categories(w.tags).len() > 0 {
                        m.selected_ways.push(w)
                    } else {
                        m.selected_ways
                    },
                    ..m
                },
            ),
        }
    } else {
        Ok(m)
    }
}

/// One event.
pub open spec fn scan_step(m: ScanModel, e: OsmXmlEvent, limits: OsmInspectionLimits) -> Result<
    ScanModel,
    ScanFailure,
> {
    match e {
        OsmXmlEvent::Start { name, attributes, latitude_in_range, longitude_in_range } => start_event(
            m,
            name@,
            attributes@,
            latitude_in_range,
            longitude_in_range,
            limits,
        ),
        OsmXmlEvent::End { name } => end_event(m, name@),
    }
}

/// The events in order, stopping at the first failure.
pub open spec fn scan_events(m: ScanModel, events: Seq<OsmXmlEvent>, limits: OsmInspectionLimits) -> Result<
    ScanModel,
    ScanFailure,
>
    decreases events.len(),
{
    if events.len() == 0 {
        Ok(m)
    } else {
        match scan_step(m, events[0], limits) {
            Err(f) => Err(f),
            Ok(m2) => scan_events(m2, events.drop_first(), limits),
        }
    }
}

/// Where a selected feature's coordinates are: a node's ordinal, the ordinals
/// of a way's nodes (schema 0.1, summarized by their bounds), or a way's node
/// identifiers with their ordinals (schema 0.2).
pub enum GeometryModel {
    Point(usize),
    Bounds(Seq<usize>, u64),
    WayNodes(Seq<(i64, usize)>),
}

/// A selected feature as a report lists it.
pub struct FeatureModel {
    pub object_type: Seq<char>,
    pub object_id: i64,
    pub categories: Seq<Seq<char>>,
    pub relevant_tags: Seq<(Seq<char>, Seq<char>)>,
    pub geometry: GeometryModel,
}

/// The feature of a selected node.
pub open spec fn node_feature(d: NodeDraft) -> FeatureModel {
    FeatureModel {
        object_type: "node"@,
        object_id: d.id,
        categories: tag_categories(d.tags),
        relevant_tags: relevant_tag_views(d.tags),
        geometry: GeometryModel::Point(d.ordinal),
    }
}

/// The feature of a selected way.
pub open spec fn way_feature(w: WayDraft, g: GeometryModel) -> FeatureModel {
    FeatureModel {
        object_type: "way"@,
        object_id: w.id,
        categories: tag_categories(w.tags),
        relevant_tags: relevant_tag_views(w.tags),
        geometry: g,
    }
}

/// Each referenced node with its ordinal; the first reference to a node that
/// was never closed is an error.
pub open spec fn resolve_refs(way_id: i64, refs: Seq<i64>, nodes: Map<i64, usize>) -> Result<
    Seq<(i64, usize)>,
    ScanFailure,
>
    decreases refs.len(),
{
    if refs.len() == 0 {
        Ok(Seq::empty())
    } else {
        match resolve_refs(way_id, refs.drop_last(), nodes) {
            Err(f) => Err(f),
            Ok(s) => if nodes.contains_key(refs.last()) {
                Ok(s.push((refs.last(), nodes[refs.last()])))
            } else {
                Err(ScanFailure::MissingNodeReference { way_id, node_id: refs.last() })
            },
        }
    }
}

/// The ordinals of resolved way nodes.
pub open spec fn ordinals_of(s: Seq<(i64, usize)>) -> Seq<usize> {
    s.map_values(|x: (i64, usize)| x.1)
}

/// Progress through the selected ways.
pub struct WayPhase {
    pub seen: Set<i64>,
    pub vertices: int,
    pub counts: OsmLayoutCounts,
    pub features: Seq<FeatureModel>,
}

/// A way feature counted and listed.
pub open spec fn add_way(p: WayPhase, w: WayDraft, g: GeometryModel, vertices: int) -> WayPhase {
    WayPhase {
        seen: p.seen.insert(w.id),
        vertices,
        counts: OsmLayoutCounts {
            selected_way_features: (p.counts.selected_way_features + 1) as u64,
            selected_features_by_category: counts_after(
                p.counts.selected_features_by_category,
                tag_categories(w.tags),
            ),
            ..p.counts
        },
        features: p.features.push(way_feature(w, g)),
    }
}

/// One selected way: a fresh identifier, resolvable nodes, and under schema
/// 0.2 a bound on the way vertices listed in all.
pub open spec fn way_step(
    p: WayPhase,
    w: WayDraft,
    nodes: Map<i64, usize>,
    limits: OsmInspectionLimits,
    schema: OsmObservationSchema,
) -> Result<WayPhase, ScanFailure> {
    if p.seen.contains(w.id) {
        Err(ScanFailure::DuplicateIdentifier { object_type: "way"@, id: w.id })
    } else {
        match resolve_refs(w.id, w.refs, nodes) {
            Err(f) => Err(f),
            Ok(s) => match schema {
                OsmObservationSchema::LegacyBounds => if s.len() == 0 {
                    Err(ScanFailure::MissingNodeReference { way_id: w.id, node_id: 0 })
                } else {
                    Ok(
                        add_way(
                            p,
                            w,
                            GeometryModel::Bounds(ordinals_of(s), w.refs.len() as u64),
                            p.vertices,
                        ),
                    )
                },
                OsmObservationSchema::WayNodeSequences => if p.vertices + s.len() > limits.max_nodes {
                    Err(
                        ScanFailure::LimitExceeded {
                            name: "max_selected_way_vertices"@,
                            limit: limits.max_nodes,
                        },
                    )
                } else {
                    Ok(add_way(p, w, GeometryModel::WayNodes(s), p.vertices + s.len()))
                },
            },
        }
    }
}

/// The selected ways in document order.
pub open spec fn way_phase(
    ways: Seq<WayDraft>,
    nodes: Map<i64, usize>,
    counts: OsmLayoutCounts,
    limits: OsmInspectionLimits,
    schema: OsmObservationSchema,
) -> Result<WayPhase, ScanFailure>
    decreases ways.len(),
{
    if ways.len() == 0 {
        Ok(WayPhase { seen: Set::empty(), vertices: 0, counts, features: Seq::empty() })
    } else {
        match way_phase(ways.drop_last(), nodes, counts, limits, schema) {
            Err(f) => Err(f),
            Ok(p) => way_step(p, ways.last(), nodes, limits, schema),
        }
    }
}

/// The outcome of a complete document: the counts, the node features in
/// document order and the way features in document order. A document
/// without an `osm` root is an error.
pub open spec fn scan_result(m: ScanModel, limits: OsmInspectionLimits, schema: OsmObservationSchema) -> Result<
    (OsmLayoutCounts, Seq<FeatureModel>, Seq<FeatureModel>),
    ScanFailure,
> {
    if !m.root_seen {
        Err(ScanFailure::WrongRoot)
    } else {
        match way_phase(m.selected_ways, m.nodes, m.counts, limits, schema) {
            Err(f) => Err(f),
            Ok(p) => Ok((p.counts, m.selected_nodes.map_values(|d: NodeDraft| node_feature(d)), p.features)),
        }
    }
}

/// Features in non-decreasing identifier order.
pub open spec fn ordered_by_id(s: Seq<FeatureModel>) -> bool {
    forall|i: int, j: int| 0 <= i < j < s.len() ==> #[trigger] s[i].object_id <= #[trigger] s[j].object_id
}

/// A report's order: the node features, then the way features, each sorted
/// by identifier.
pub open spec fn report_order(features: Seq<FeatureModel>, nodes: Seq<FeatureModel>, ways: Seq<FeatureModel>) -> bool {
    &&& features.len() == nodes.len() + ways.len()
    &&& ordered_by_id(features.take(nodes.len() as int))
    &&& features.take(nodes.len() as int).to_multiset() == nodes.to_multiset()
    &&& ordered_by_id(features.skip(nodes.len() as int))
    &&& features.skip(nodes.len() as int).to_multiset() == ways.to_multiset()
}

/// Every category count is at most `n`.
pub open spec fn categories_at_most(c: CategoryCounts, n: int) -> bool {
    &&& c.building <= n
    &&& c.elevator <= n
    &&& c.entrance <= n
    &&& c.indoor_area <= n
    &&& c.pedestrian_way <= n
    &&& c.platform <= n
    &&& c.station <= n
    &&& c.steps <= n
}

/// What holds of every state the events can reach.
pub open spec fn scan_wf(m: ScanModel, limits: OsmInspectionLimits) -> bool {
    &&& m.counts.parsed_nodes <= limits.max_nodes
    &&& m.counts.parsed_ways <= limits.max_ways
    &&& m.counts.selected_node_features == m.selected_nodes.len()
    &&& m.counts.selected_way_features == 0
    &&& m.selected_nodes.len() + (if m.node is Some { 1int } else { 0int }) <= m.counts.parsed_nodes
    &&& m.selected_ways.len() + (if m.way is Some { 1int } else { 0int }) <= m.counts.parsed_ways
    &&& categories_at_most(m.counts.selected_features_by_category, m.selected_nodes.len() as int)
    &&& (m.node matches Some(d) ==> tags_unique(d.tags) && d.tag_count <= limits.max_tags_per_object
        && d.ordinal < m.counts.parsed_nodes)
    &&& (m.way matches Some(w) ==> tags_unique(w.tags) && w.tag_count <= limits.max_tags_per_object
        && w.refs.len() <= limits.max_node_references_per_way)
}

proof fn lemma_occurrences_push_if(s: Seq<Seq<char>>, flag: bool, item: Seq<char>, name: Seq<char>)
    ensures
        occurrences(push_if(s, flag, item), name) == occurrences(s, name) + if flag && item == name {
            1nat
        } else {
            0nat
        },
{
    if flag {
        assert(s.push(item).drop_last() =~= s);
    }
}

/// Each name is one of the eight categories.
pub open spec fn all_category_names(s: Seq<Seq<char>>) -> bool {
    forall|k: int| 0 <= k < s.len() ==> is_category_name(#[trigger] s[k])
}

/// The category list with each category selected by its flag.
pub open spec fn category_chain(
    b0: bool,
    b1: bool,
    b2: bool,
    b3: bool,
    b4: bool,
    b5: bool,
    b6: bool,
    b7: bool,
) -> Seq<Seq<char>> {
    let s0 = push_if(Seq::empty(), b0, "building"@);
    let s1 = push_if(s0, b1, "elevator"@);
    let s2 = push_if(s1, b2, "entrance"@);
    let s3 = push_if(s2, b3, "indoor_area"@);
    let s4 = push_if(s3, b4, "pedestrian_way"@);
    let s5 = push_if(s4, b5, "platform"@);
    let s6 = push_if(s5, b6, "station"@);
    push_if(s6, b7, "steps"@)
}

proof fn lemma_push_if_names(s: Seq<Seq<char>>, flag: bool, item: Seq<char>)
    requires
        all_category_names(s),
        is_category_name(item),
    ensures
        all_category_names(push_if(s, flag, item)),
{
}

proof fn lemma_category_chain_names(
    b0: bool,
    b1: bool,
    b2: bool,
    b3: bool,
    b4: bool,
    b5: bool,
    b6: bool,
    b7: bool,
)
    ensures
        all_category_names(category_chain(b0, b1, b2, b3, b4, b5, b6, b7)),
{
    let s0 = push_if(Seq::empty(), b0, "building"@);
    let s1 = push_if(s0, b1, "elevator"@);
    let s2 = push_if(s1, b2, "entrance"@);
    let s3 = push_if(s2, b3, "indoor_area"@);
    let s4 = push_if(s3, b4, "pedestrian_way"@);
    let s5 = push_if(s4, b5, "platform"@);
    let s6 = push_if(s5, b6, "station"@);
    lemma_push_if_names(Seq::empty(), b0, "building"@);
    lemma_push_if_names(s0, b1, "elevator"@);
    lemma_push_if_names(s1, b2, "entrance"@);
    lemma_push_if_names(s2, b3, "indoor_area"@);
    lemma_push_if_names(s3, b4, "pedestrian_way"@);
    lemma_push_if_names(s4, b5, "platform"@);
    lemma_push_if_names(s5, b6, "station"@);
    lemma_push_if_names(s6, b7, "steps"@);
}

/// The occurrences of `name` in the chain, one flag per category.
pub open spec fn chain_occurrences(
    b0: bool,
    b1: bool,
    b2: bool,
    b3: bool,
    b4: bool,
    b5: bool,
    b6: bool,
    b7: bool,
    name: Seq<char>,
) -> int {
    (if b0 && "building"@ == name { 1int } else { 0int })
    + (if b1 && "elevator"@ == name { 1int } else { 0int })
    + (if b2 && "entrance"@ == name { 1int } else { 0int })
    + (if b3 && "indoor_area"@ == name { 1int } else { 0int })
    + (if b4 && "pedestrian_way"@ == name { 1int } else { 0int })
    + (if b5 && "platform"@ == name { 1int } else { 0int })
    + (if b6 && "station"@ == name { 1int } else { 0int })
    + (if b7 && "steps"@ == name { 1int } else { 0int })
}

proof fn lemma_category_chain_count(
    b0: bool,
    b1: bool,
    b2: bool,
    b3: bool,
    b4: bool,
    b5: bool,
    b6: bool,
    b7: bool,
    name: Seq<char>,
)
    ensures
        occurrences(category_chain(b0, b1, b2, b3, b4, b5, b6, b7), name) == chain_occurrences(
            b0,
            b1,
            b2,
            b3,
            b4,
            b5,
            b6,
            b7,
            name,
        ),
{
    let s0 = push_if(Seq::empty(), b0, "building"@);
    let s1 = push_if(s0, b1, "elevator"@);
    let s2 = push_if(s1, b2, "entrance"@);
    let s3 = push_if(s2, b3, "indoor_area"@);
    let s4 = push_if(s3, b4, "pedestrian_way"@);
    let s5 = push_if(s4, b5, "platform"@);
    let s6 = push_if(s5, b6, "station"@);
    lemma_occurrences_push_if(Seq::empty(), b0, "building"@, name);
    lemma_occurrences_push_if(s0, b1, "elevator"@, name);
    lemma_occurrences_push_if(s1, b2, "entrance"@, name);
    lemma_occurrences_push_if(s2, b3, "indoor_area"@, name);
    lemma_occurrences_push_if(s3, b4, "pedestrian_way"@, name);
    lemma_occurrences_push_if(s4, b5, "platform"@, name);
    lemma_occurrences_push_if(s5, b6, "station"@, name);
    lemma_occurrences_push_if(s6, b7, "steps"@, name);
    assert(occurrences(Seq::<Seq<char>>::empty(), name) == 0);
}

proof fn lemma_chain_occurrences_at_most_one(
    b0: bool,
    b1: bool,
    b2: bool,
    b3: bool,
    b4: bool,
    b5: bool,
    b6: bool,
    b7: bool,
    name: Seq<char>,
)
    ensures
        chain_occurrences(b0, b1, b2, b3, b4, b5, b6, b7, name) <= 1,
{
    crate::layout::lemma_category_names_distinct();
    if name == "building"@ {
    } else if name == "elevator"@ {
    } else if name == "entrance"@ {
    } else if name == "indoor_area"@ {
    } else if name == "pedestrian_way"@ {
    } else if name == "platform"@ {
    } else if name == "station"@ {
    } else {
    }
}

/// Every selected category is named once at most, and is one of the eight.
proof fn lemma_category_list(tags: Seq<(String, String)>, name: Seq<char>)
    ensures
        all_category_names(tag_categories(tags)),
        occurrences(tag_categories(tags), name) <= 1,
{
    let b0 = crate::layout::selects_building(tags);
    let b1 = crate::layout::tag_is(tags, "highway"@, "elevator"@);
    let b2 = tag_value(tags, "entrance"@) is Some;
    let b3 = crate::layout::selects_indoor_area(tags);
    let b4 = crate::layout::selects_pedestrian_way(tags);
    let b5 = crate::layout::selects_platform(tags);
    let b6 = crate::layout::selects_station(tags);
    let b7 = crate::layout::tag_is(tags, "highway"@, "steps"@);
    assert(tag_categories(tags) == category_chain(b0, b1, b2, b3, b4, b5, b6, b7));
    lemma_category_chain_names(b0, b1, b2, b3, b4, b5, b6, b7);
    lemma_category_chain_count(b0, b1, b2, b3, b4, b5, b6, b7, name);
    lemma_chain_occurrences_at_most_one(b0, b1, b2, b3, b4, b5, b6, b7, name);
}

/// Counting one more feature keeps every category count within the number
/// of features, and within a `u64` while that number is.
proof fn lemma_count_feature(c: CategoryCounts, tags: Seq<(String, String)>, n: int)
    requires
        categories_at_most(c, n),
        n + 1 <= u64::MAX,
    ensures
        counts_fit(c, tag_categories(tags)),
        categories_at_most(counts_after(c, tag_categories(tags)), n + 1),
{
    lemma_category_list(tags, "building"@);
    lemma_category_list(tags, "elevator"@);
    lemma_category_list(tags, "entrance"@);
    lemma_category_list(tags, "indoor_area"@);
    lemma_category_list(tags, "pedestrian_way"@);
    lemma_category_list(tags, "platform"@);
    lemma_category_list(tags, "station"@);
    lemma_category_list(tags, "steps"@);
}

/// The value of the first attribute called `name`.
fn attribute(attributes: &Vec<(String, String)>, name: &str) -> (r: Option<String>)
    ensures
        r == attribute_value(attributes@, name@),
{
    let mut i: usize = 0;
    proof {
        assert(attributes@.skip(0) =~= attributes@);
    }
    while i < attributes.len()
        invariant
            i <= attributes@.len(),
            attribute_value(attributes@, name@) == attribute_value(attributes@.skip(i as int), name@),
        decreases attributes@.len() - i,
    {
        proof {
            assert(attributes@.skip(i as int)[0] == attributes@[i as int]);
            assert(attributes@.skip(i as int).drop_first() =~= attributes@.skip(i + 1));
        }
        if text_eq(attributes[i].0.as_str(), name) {
            return Some(attributes[i].1.clone());
        }
        i += 1;
    }
    None
}

/// An OSM identifier attribute value as an `i64`.
pub fn parse_identifier(element: &str, attribute: &str, value: &str) -> (r: Result<i64, OsmLayoutError>)
    ensures
        match identifier_value(value@) {
            Some(id) => r matches Ok(x) && x == id,
            None => r matches Err(e) && failure_is(
                e,
                ScanFailure::InvalidAttribute { element: element@, attribute: attribute@, value: value@ },
                Seq::empty(),
            ),
        },
{
    let chars = chars_of(value);
    match parse_i64_literal(&chars) {
        Some(id) => Ok(id),
        None => Err(
            OsmLayoutError::InvalidAttribute {
                element: owned(element),
                attribute: owned(attribute),
                value: owned(value),
            },
        ),
    }
}

/// The identifier in attribute `name` of an `element`.
fn identifier_in(attributes: &Vec<(String, String)>, element: &str, name: &str) -> (r: Result<
    i64,
    OsmLayoutError,
>)
    ensures
        match identifier_attribute(attributes@, element@, name@) {
            Ok(id) => r matches Ok(x) && x == id,
            Err(f) => r matches Err(e) && failure_is(e, f, Seq::empty()),
        },
{
    match attribute(attributes, name) {
        None => Err(OsmLayoutError::MissingAttribute { element: owned(element), attribute: owned(name) }),
        Some(v) => parse_identifier(element, name, v.as_str()),
    }
}

/// A node coordinate attribute must be present and in range.
fn coordinate_in(attributes: &Vec<(String, String)>, name: &str, in_range: bool) -> (r: Result<
    (),
    OsmLayoutError,
>)
    ensures
        match coordinate_attribute(attributes@, name@, in_range) {
            Ok(_) => r is Ok,
            Err(f) => r matches Err(e) && failure_is(e, f, Seq::empty()),
        },
{
    match attribute(attributes, name) {
        None => Err(OsmLayoutError::MissingAttribute { element: owned("node"), attribute: owned(name) }),
        Some(v) => if in_range {
            Ok(())
        } else {
            Err(
                OsmLayoutError::InvalidAttribute {
                    element: owned("node"),
                    attribute: owned(name),
                    value: v,
                },
            )
        },
    }
}

/// Each referenced node with its ordinal.
fn resolve_references(way_id: i64, refs: &Vec<i64>, nodes: &BTreeMap<i64, usize>) -> (r: Result<
    Vec<(i64, usize)>,
    OsmLayoutError,
>)
    ensures
        match resolve_refs(way_id, refs@, nodes@) {
            Ok(s) => r matches Ok(v) && v@ == s,
            Err(f) => r matches Err(e) && failure_is(e, f, Seq::empty()),
        },
{
    broadcast use vstd::std_specs::btree::group_btree_axioms;
    let mut out: Vec<(i64, usize)> = Vec::new();
    let mut i: usize = 0;
    while i < refs.len()
        invariant
            i <= refs@.len(),
            resolve_refs(way_id, refs@.take(i as int), nodes@) == Ok::<Seq<(i64, usize)>, ScanFailure>(out@),
        decreases refs@.len() - i,
    {
        proof {
            assert(refs@.take(i + 1).drop_last() =~= refs@.take(i as int));
            assert(refs@.take(i + 1).last() == refs@[i as int]);
        }
        let id = refs[i];
        match nodes.get(&id) {
            Some(ordinal) => {
                out.push((id, *ordinal));
            },
            None => {
                proof {
                    lemma_resolve_stops(way_id, refs@, nodes@, i + 1);
                }
                return Err(OsmLayoutError::MissingNodeReference { way_id, node_id: id });
            },
        }
        i += 1;
    }
    proof {
        assert(refs@.take(refs@.len() as int) =~= refs@);
    }
    Ok(out)
}

proof fn lemma_resolve_stops(way_id: i64, refs: Seq<i64>, nodes: Map<i64, usize>, k: int)
    requires
        0 <= k <= refs.len(),
        resolve_refs(way_id, refs.take(k), nodes) is Err,
    ensures
        resolve_refs(way_id, refs, nodes) == resolve_refs(way_id, refs.take(k), nodes),
    decreases refs.len() - k,
{
    if k == refs.len() {
        assert(refs.take(k) =~= refs);
    } else {
        assert(refs.take(k + 1).drop_last() =~= refs.take(k));
        lemma_resolve_stops(way_id, refs, nodes, k + 1);
    }
}

/// Copies of the strings.
fn copy_strings(v: &Vec<String>) -> (r: Vec<String>)
    ensures
        string_views(r@) == string_views(v@),
{
    let mut out: Vec<String> = Vec::new();
    let mut i: usize = 0;
    while i < v.len()
        invariant
            i <= v@.len(),
            string_views(out@) =~= string_views(v@.take(i as int)),
        decreases v@.len() - i,
    {
        let ghost before = out@;
        out.push(owned(v[i].as_str()));
        proof {
            assert(v@.take(i + 1) =~= v@.take(i as int).push(v@[i as int]));
            assert(string_views(out@) =~= string_views(before).push(v@[i as int]@));
            assert(string_views(v@.take(i + 1)) =~= string_views(v@.take(i as int)).push(v@[i as int]@));
        }
        i += 1;
    }
    proof {
        assert(v@.take(v@.len() as int) =~= v@);
    }
    out
}

/// Where a selected feature's coordinates are, by node ordinal.
#[derive(Debug, Clone)]
pub enum FeatureGeometry {
    Point { node: usize },
    Bounds { nodes: Vec<usize>, referenced_node_count: u64 },
    WayNodeSequence { nodes: Vec<(i64, usize)> },
}

/// One selected OSM object.
#[derive(Debug, Clone)]
pub struct OsmFeature {
    pub object_type: String,
    pub object_id: i64,
    pub categories: Vec<String>,
    pub relevant_tags: Vec<(String, String)>,
    pub geometry: FeatureGeometry,
}

pub open spec fn geometry_view(g: FeatureGeometry) -> GeometryModel {
    match g {
        FeatureGeometry::Point { node } => GeometryModel::Point(node),
        FeatureGeometry::Bounds { nodes, referenced_node_count } => GeometryModel::Bounds(
            nodes@,
            referenced_node_count,
        ),
        FeatureGeometry::WayNodeSequence { nodes } => GeometryModel::WayNodes(nodes@),
    }
}

pub open spec fn feature_view(f: OsmFeature) -> FeatureModel {
    FeatureModel {
        object_type: f.object_type@,
        object_id: f.object_id,
        categories: string_views(f.categories@),
        relevant_tags: tag_views(f.relevant_tags@),
        geometry: geometry_view(f.geometry),
    }
}

pub open spec fn features_view(fs: Seq<OsmFeature>) -> Seq<FeatureModel> {
    fs.map_values(|f: OsmFeature| feature_view(f))
}

/// What an inspection found: the counts and the selected features, nodes
/// first, each kind by identifier.
#[derive(Debug, Clone)]
pub struct OsmInspection {
    pub counts: OsmLayoutCounts,
    pub features: Vec<OsmFeature>,
}

/// Insert a feature after every feature whose identifier is not greater.
fn insert_by_id(features: &mut Vec<OsmFeature>, f: OsmFeature)
    requires
        ordered_by_id(features_view(old(features)@)),
    ensures
        final(features)@.len() == old(features)@.len() + 1,
        ordered_by_id(features_view(final(features)@)),
        features_view(final(features)@).to_multiset() == features_view(old(features)@).to_multiset().insert(
            feature_view(f),
        ),
{
    broadcast use vstd::seq_lib::to_multiset_insert;
    let ghost before = features_view(features@);
    let mut p: usize = 0;
    while p < features.len() && features[p].object_id <= f.object_id
        invariant
            p <= features@.len(),
            before == features_view(features@),
            ordered_by_id(before),
            forall|k: int| 0 <= k < p ==> #[trigger] before[k].object_id <= f.object_id,
        decreases features@.len() - p,
    {
        p += 1;
    }
    let ghost fv = feature_view(f);
    features.insert(p, f);
    proof {
        assert(features_view(features@) =~= before.insert(p as int, fv));
        let after = features_view(features@);
        assert forall|i: int, j: int| 0 <= i < j < after.len() implies #[trigger] after[i].object_id
            <= #[trigger] after[j].object_id by {
            if p < before.len() {
                assert(before[p as int].object_id > fv.object_id);
            }
            if i < p && j > p {
                assert(before[i].object_id <= fv.object_id);
                assert(before[j - 1].object_id >= before[p as int].object_id);
            } else if i == p && j > p {
                assert(before[j - 1].object_id >= before[p as int].object_id);
            } else if j == p {
                assert(before[i].object_id <= fv.object_id);
            } else if i < p && j < p {
                assert(after[i] == before[i] && after[j] == before[j]);
            } else {
                assert(after[i] == before[i - 1] && after[j] == before[j - 1]);
            }
        }
    }
}

/// A node whose element is open.
struct NodeBuilder {
    id: i64,
    ordinal: usize,
    tags: Vec<(String, String)>,
    tag_count: usize,
}

/// A way whose element is open.
struct WayBuilder {
    id: i64,
    node_references: Vec<i64>,
    tags: Vec<(String, String)>,
    tag_count: usize,
}

spec fn node_draft(b: NodeBuilder) -> NodeDraft {
    NodeDraft { id: b.id, ordinal: b.ordinal, tags: b.tags@, tag_count: b.tag_count }
}

spec fn way_draft(b: WayBuilder) -> WayDraft {
    WayDraft { id: b.id, refs: b.node_references@, tags: b.tags@, tag_count: b.tag_count }
}

/// An inspection in progress: feed it the document's element boundaries in
/// order with [`OsmScan::step`], then [`OsmScan::finish`] it.
pub struct OsmScan {
    path: String,
    limits: OsmInspectionLimits,
    root_seen: bool,
    nodes: BTreeMap<i64, usize>,
    selected_nodes: Vec<(NodeBuilder, Vec<String>)>,
    selected_ways: Vec<(WayBuilder, Vec<String>)>,
    counts: OsmLayoutCounts,
    current_node: Option<NodeBuilder>,
    current_way: Option<WayBuilder>,
}

impl View for OsmScan {
    type V = ScanModel;

    closed spec fn view(&self) -> ScanModel {
        ScanModel {
            root_seen: self.root_seen,
            nodes: self.nodes@,
            selected_nodes: self.selected_nodes@.map_values(
                |p: (NodeBuilder, Vec<String>)| node_draft(p.0),
            ),
            selected_ways: self.selected_ways@.map_values(|p: (WayBuilder, Vec<String>)| way_draft(p.0)),
            counts: self.counts,
            node: match self.current_node {
                Some(b) => Some(node_draft(b)),
                None => None,
            },
            way: match self.current_way {
                Some(b) => Some(way_draft(b)),
                None => None,
            },
        }
    }
}

impl OsmScan {
    /// The bounds the inspection runs under.
    pub closed spec fn limits(&self) -> OsmInspectionLimits {
        self.limits
    }

    /// The document's path, for the errors that name it.
    pub closed spec fn path(&self) -> Seq<char> {
        self.path@
    }

    /// What every reachable state satisfies.
    pub closed spec fn wf(&self) -> bool {
        &&& scan_wf(self@, self.limits)
        &&& self.limits.max_nodes + self.limits.max_ways <= u64::MAX
        &&& forall|i: int|
            0 <= i < self.selected_nodes@.len() ==> string_views(#[trigger] self.selected_nodes@[i].1@)
                == tag_categories(self.selected_nodes@[i].0.tags@)
        &&& forall|i: int|
            0 <= i < self.selected_ways@.len() ==> string_views(#[trigger] self.selected_ways@[i].1@)
                == tag_categories(self.selected_ways@[i].0.tags@)
    }

    /// A fresh inspection of the document at `path`. The node and way bounds
    /// together fit in a `u64`, so that no count can overflow.
    pub fn new(path: &str, limits: OsmInspectionLimits) -> (r: Self)
        requires
            limits.max_nodes + limits.max_ways <= u64::MAX,
        ensures
            r.wf(),
            r@ == scan_start(),
            r.limits() == limits,
            r.path() == path@,
    {
        let r = OsmScan {
            path: owned(path),
            limits,
            root_seen: false,
            nodes: BTreeMap::new(),
            selected_nodes: Vec::new(),
            selected_ways: Vec::new(),
            counts: OsmLayoutCounts::default(),
            current_node: None,
            current_way: None,
        };
        proof {
            assert(r@.selected_nodes =~= Seq::<NodeDraft>::empty());
            assert(r@.selected_ways =~= Seq::<WayDraft>::empty());
            assert(r@.nodes =~= Map::<i64, usize>::empty());
        }
        r
    }

    fn wrong_root(&self) -> (e: OsmLayoutError)
        ensures
            failure_is(e, ScanFailure::WrongRoot, self.path@),
    {
        OsmLayoutError::WrongRoot { path: self.path.clone() }
    }

    fn start_node(
        &mut self,
        attributes: &Vec<(String, String)>,
        latitude_in_range: bool,
        longitude_in_range: bool,
    ) -> (r: Result<(), OsmLayoutError>)
        requires
            old(self).wf(),
        ensures
            final(self).wf(),
            final(self).limits == old(self).limits,
            final(self).path == old(self).path,
            match node_start(old(self)@, attributes@, latitude_in_range, longitude_in_range, old(self).limits) {
                Ok(m) => r is Ok && final(self)@ == m,
                Err(f) => r matches Err(e) && failure_is(e, f, old(self).path@),
            },
    {
        if self.counts.parsed_nodes >= self.limits.max_nodes as u64 {
            return Err(
                OsmLayoutError::LimitExceeded { name: owned("max_nodes"), limit: self.limits.max_nodes },
            );
        }
        let id = match identifier_in(attributes, "node", "id") {
            Ok(id) => id,
            Err(e) => {
                return Err(e);
            },
        };
        match coordinate_in(attributes, "lat", latitude_in_range) {
            Ok(_) => {},
            Err(e) => {
                return Err(e);
            },
        }
        match coordinate_in(attributes, "lon", longitude_in_range) {
            Ok(_) => {},
            Err(e) => {
                return Err(e);
            },
        }
        let ordinal = self.counts.parsed_nodes as usize;
        self.counts.parsed_nodes = self.counts.parsed_nodes + 1;
        self.current_node = Some(NodeBuilder { id, ordinal, tags: Vec::new(), tag_count: 0 });
        proof {
            assert(node_draft(self.current_node.unwrap()).tags =~= Seq::<(String, String)>::empty());
        }
        Ok(())
    }

    fn start_way(&mut self, attributes: &Vec<(String, String)>) -> (r: Result<(), OsmLayoutError>)
        requires
            old(self).wf(),
        ensures
            final(self).wf(),
            final(self).limits == old(self).limits,
            final(self).path == old(self).path,
            match way_start(old(self)@, attributes@, old(self).limits) {
                Ok(m) => r is Ok && final(self)@ == m,
                Err(f) => r matches Err(e) && failure_is(e, f, old(self).path@),
            },
    {
        if self.counts.parsed_ways >= self.limits.max_ways as u64 {
            return Err(
                OsmLayoutError::LimitExceeded { name: owned("max_ways"), limit: self.limits.max_ways },
            );
        }
        let id = match identifier_in(attributes, "way", "id") {
            Ok(id) => id,
            Err(e) => {
                return Err(e);
            },
        };
        self.counts.parsed_ways = self.counts.parsed_ways + 1;
        self.current_way = Some(
            WayBuilder { id, node_references: Vec::new(), tags: Vec::new(), tag_count: 0 },
        );
        proof {
            assert(way_draft(self.current_way.unwrap()).tags =~= Seq::<(String, String)>::empty());
            assert(way_draft(self.current_way.unwrap()).refs =~= Seq::<i64>::empty());
        }
        Ok(())
    }

    fn start_tag(&mut self, attributes: &Vec<(String, String)>) -> (r: Result<(), OsmLayoutError>)
        requires
            old(self).wf(),
        ensures
            final(self).wf(),
            final(self).limits == old(self).limits,
            final(self).path == old(self).path,
            match tag_start(old(self)@, attributes@, old(self).limits) {
                Ok(m) => r is Ok && final(self)@ == m,
                Err(f) => r matches Err(e) && failure_is(e, f, old(self).path@),
            },
    {
        let key = match attribute(attributes, "k") {
            Some(k) => k,
            None => {
                return Err(
                    OsmLayoutError::MissingAttribute { element: owned("tag"), attribute: owned("k") },
                );
            },
        };
        let value = match attribute(attributes, "v") {
            Some(v) => v,
            None => {
                return Err(
                    OsmLayoutError::MissingAttribute { element: owned("tag"), attribute: owned("v") },
                );
            },
        };
        let limits = self.limits;
        match self.current_node.take() {
            Some(mut node) => {
                let r = insert_tag(&mut node.tags, &mut node.tag_count, node.id, "node", key, value, limits);
                self.current_node = Some(node);
                r
            },
            None => match self.current_way.take() {
                Some(mut way) => {
                    let r = insert_tag(&mut way.tags, &mut way.tag_count, way.id, "way", key, value, limits);
                    self.current_way = Some(way);
                    r
                },
                None => Ok(()),
            },
        }
    }

    fn start_nd(&mut self, attributes: &Vec<(String, String)>) -> (r: Result<(), OsmLayoutError>)
        requires
            old(self).wf(),
        ensures
            final(self).wf(),
            final(self).limits == old(self).limits,
            final(self).path == old(self).path,
            match nd_start(old(self)@, attributes@, old(self).limits) {
                Ok(m) => r is Ok && final(self)@ == m,
                Err(f) => r matches Err(e) && failure_is(e, f, old(self).path@),
            },
    {
        match self.current_way.take() {
            None => Ok(()),
            Some(mut way) => {
                if way.node_references.len() >= self.limits.max_node_references_per_way {
                    self.current_way = Some(way);
                    return Err(
                        OsmLayoutError::LimitExceeded {
                            name: owned("max_node_references_per_way"),
                            limit: self.limits.max_node_references_per_way,
                        },
                    );
                }
                match identifier_in(attributes, "nd", "ref") {
                    Err(e) => {
                        self.current_way = Some(way);
                        Err(e)
                    },
                    Ok(reference) => {
                        way.node_references.push(reference);
                        self.current_way = Some(way);
                        Ok(())
                    },
                }
            },
        }
    }

    fn end_node(&mut self) -> (r: Result<(), OsmLayoutError>)
        requires
            old(self).wf(),
        ensures
            final(self).wf(),
            final(self).limits == old(self).limits,
            final(self).path == old(self).path,
            match end_event(old(self)@, "node"@) {
                Ok(m) => r is Ok && final(self)@ == m,
                Err(f) => r matches Err(e) && failure_is(e, f, old(self).path@),
            },
    {
        broadcast use vstd::std_specs::btree::group_btree_axioms;
        match self.current_node.take() {
            None => Ok(()),
            Some(node) => {
                if self.nodes.contains_key(&node.id) {
                    return Err(
                        OsmLayoutError::DuplicateIdentifier { object_type: owned("node"), id: node.id },
                    );
                }
                self.nodes.insert(node.id, node.ordinal);
                match classify(&node.tags) {
                    Some(categories) => {
                        let ghost names = string_views(categories@);
                        proof {
                            lemma_count_feature(
                                self.counts.selected_features_by_category,
                                node.tags@,
                                self.selected_nodes@.len() as int,
                            );
                            lemma_category_list(node.tags@, Seq::empty());
                            assert forall|i: int| 0 <= i < categories@.len() implies is_category_name(
                                #[trigger] categories@[i]@,
                            ) by {
                                assert(names[i] == categories@[i]@);
                            }
                        }
                        self.counts.selected_node_features = self.counts.selected_node_features + 1;
                        increment_categories(&mut self.counts, &categories);
                        let ghost before = self.selected_nodes@;
                        self.selected_nodes.push((node, categories));
                        proof {
                            assert(self@.selected_nodes =~= before.map_values(
                                |p: (NodeBuilder, Vec<String>)| node_draft(p.0),
                            ).push(node_draft(node)));
                        }
                    },
                    None => {},
                }
                Ok(())
            },
        }
    }

    fn end_way(&mut self) -> (r: Result<(), OsmLayoutError>)
        requires
            old(self).wf(),
        ensures
            final(self).wf(),
            final(self).limits == old(self).limits,
            final(self).path == old(self).path,
            match end_event(old(self)@, "way"@) {
                Ok(m) => r is Ok && final(self)@ == m,
                Err(f) => r matches Err(e) && failure_is(e, f, old(self).path@),
            },
    {
        proof {
            reveal_strlit("way");
            reveal_strlit("node");
            assert("way"@[0] != "node"@[0]);
        }
        match self.current_way.take() {
            None => Ok(()),
            Some(way) => {
                match classify(&way.tags) {
                    Some(categories) => {
                        let ghost before = self.selected_ways@;
                        self.selected_ways.push((way, categories));
                        proof {
                            assert(self@.selected_ways =~= before.map_values(
                                |p: (WayBuilder, Vec<String>)| way_draft(p.0),
                            ).push(way_draft(way)));
                        }
                    },
                    None => {},
                }
                Ok(())
            },
        }
    }

    /// One element boundary of the document.
    pub fn step(&mut self, event: &OsmXmlEvent) -> (r: Result<(), OsmLayoutError>)
        requires
            old(self).wf(),
        ensures
            final(self).wf(),
            final(self).limits() == old(self).limits(),
            final(self).path() == old(self).path(),
            match scan_step(old(self)@, *event, old(self).limits()) {
                Ok(m) => r is Ok && final(self)@ == m,
                Err(f) => r matches Err(e) && failure_is(e, f, old(self).path()),
            },
    {
        proof {
            lemma_element_names_distinct();
        }
        match event {
            OsmXmlEvent::Start { name, attributes, latitude_in_range, longitude_in_range } => {
                let root_start = !self.root_seen;
                let is_osm = text_eq(name.as_str(), "osm");
                if root_start && !is_osm {
                    return Err(self.wrong_root());
                }
                self.root_seen = true;
                if is_osm {
                    if !root_start || self.current_node.is_some() || self.current_way.is_some() {
                        return Err(self.wrong_root());
                    }
                    Ok(())
                } else if text_eq(name.as_str(), "node") {
                    self.start_node(attributes, *latitude_in_range, *longitude_in_range)
                } else if text_eq(name.as_str(), "way") {
                    self.start_way(attributes)
                } else if text_eq(name.as_str(), "tag") {
                    self.start_tag(attributes)
                } else if text_eq(name.as_str(), "nd") {
                    self.start_nd(attributes)
                } else {
                    Ok(())
                }
            },
            OsmXmlEvent::End { name } => {
                if text_eq(name.as_str(), "node") {
                    self.end_node()
                } else if text_eq(name.as_str(), "way") {
                    self.end_way()
                } else {
                    Ok(())
                }
            },
        }
    }
}

impl OsmScan {
    /// The selected nodes' features, by identifier.
    fn node_features(&self) -> (r: Vec<OsmFeature>)
        requires
            self.wf(),
        ensures
            r@.len() == self@.selected_nodes.len(),
            ordered_by_id(features_view(r@)),
            features_view(r@).to_multiset() == self@.selected_nodes.map_values(
                |d: NodeDraft| node_feature(d),
            ).to_multiset(),
    {
        broadcast use vstd::seq_lib::to_multiset_build;
        let ghost all = self@.selected_nodes.map_values(|d: NodeDraft| node_feature(d));
        let mut out: Vec<OsmFeature> = Vec::new();
        let mut i: usize = 0;
        proof {
            assert(features_view(out@) =~= Seq::<FeatureModel>::empty());
            assert(all.take(0) =~= Seq::<FeatureModel>::empty());
        }
        while i < self.selected_nodes.len()
            invariant
                self.wf(),
                all == self@.selected_nodes.map_values(|d: NodeDraft| node_feature(d)),
                i <= self.selected_nodes@.len(),
                out@.len() == i,
                ordered_by_id(features_view(out@)),
                features_view(out@).to_multiset() == all.take(i as int).to_multiset(),
            decreases self.selected_nodes@.len() - i,
        {
            let node = &self.selected_nodes[i].0;
            let categories = &self.selected_nodes[i].1;
            let f = OsmFeature {
                object_type: owned("node"),
                object_id: node.id,
                categories: copy_strings(categories),
                relevant_tags: relevant_tags(&node.tags),
                geometry: FeatureGeometry::Point { node: node.ordinal },
            };
            proof {
                assert(string_views(self.selected_nodes@[i as int].1@) == tag_categories(
                    self.selected_nodes@[i as int].0.tags@,
                ));
                assert(self@.selected_nodes[i as int] == node_draft(self.selected_nodes@[i as int].0));
                assert(feature_view(f) == all[i as int]);
                assert(all.take(i + 1) =~= all.take(i as int).push(all[i as int]));
            }
            insert_by_id(&mut out, f);
            proof {
                vstd::seq_lib::to_multiset_build(all.take(i as int), all[i as int]);
            }
            i += 1;
        }
        proof {
            assert(all.take(i as int) =~= all);
        }
        out
    }
}

/// The ordinals of resolved way nodes.
fn ordinals(v: &Vec<(i64, usize)>) -> (r: Vec<usize>)
    ensures
        r@ == ordinals_of(v@),
{
    let mut out: Vec<usize> = Vec::new();
    let mut i: usize = 0;
    while i < v.len()
        invariant
            i <= v@.len(),
            out@.len() == i,
            forall|k: int| 0 <= k < i ==> out@[k] == #[trigger] v@[k].1,
        decreases v@.len() - i,
    {
        out.push(v[i].1);
        i += 1;
    }
    proof {
        assert(out@ =~= ordinals_of(v@));
    }
    out
}

proof fn lemma_resolve_error_kind(way_id: i64, refs: Seq<i64>, nodes: Map<i64, usize>)
    ensures
        resolve_refs(way_id, refs, nodes) matches Err(f) ==> f is MissingNodeReference,
    decreases refs.len(),
{
    if refs.len() > 0 {
        lemma_resolve_error_kind(way_id, refs.drop_last(), nodes);
    }
}

proof fn lemma_way_phase_error_kind(
    ways: Seq<WayDraft>,
    nodes: Map<i64, usize>,
    counts: OsmLayoutCounts,
    limits: OsmInspectionLimits,
    schema: OsmObservationSchema,
)
    ensures
        way_phase(ways, nodes, counts, limits, schema) matches Err(f) ==> f !is WrongRoot,
    decreases ways.len(),
{
    if ways.len() > 0 {
        lemma_way_phase_error_kind(ways.drop_last(), nodes, counts, limits, schema);
        lemma_resolve_error_kind(ways.last().id, ways.last().refs, nodes);
    }
}

proof fn lemma_way_phase_stops(
    ways: Seq<WayDraft>,
    nodes: Map<i64, usize>,
    counts: OsmLayoutCounts,
    limits: OsmInspectionLimits,
    schema: OsmObservationSchema,
    k: int,
)
    requires
        0 <= k <= ways.len(),
        way_phase(ways.take(k), nodes, counts, limits, schema) is Err,
    ensures
        way_phase(ways, nodes, counts, limits, schema) == way_phase(ways.take(k), nodes, counts, limits, schema),
    decreases ways.len() - k,
{
    if k == ways.len() {
        assert(ways.take(k) =~= ways);
    } else {
        assert(ways.take(k + 1).drop_last() =~= ways.take(k));
        lemma_way_phase_stops(ways, nodes, counts, limits, schema, k + 1);
    }
}

impl OsmScan {
    /// The selected ways, checked and turned into features.
    fn way_features(&self, schema: OsmObservationSchema) -> (r: Result<
        (OsmLayoutCounts, Vec<OsmFeature>),
        OsmLayoutError,
    >)
        requires
            self.wf(),
        ensures
            match way_phase(self@.selected_ways, self@.nodes, self@.counts, self.limits, schema) {
                Ok(p) => r matches Ok(t) && t.0 == p.counts && t.1@.len() == p.features.len()
                    && ordered_by_id(features_view(t.1@)) && features_view(t.1@).to_multiset()
                    == p.features.to_multiset(),
                Err(f) => r matches Err(e) && failure_is(e, f, Seq::empty()),
            },
    {
        broadcast use vstd::std_specs::btree::group_btree_axioms;
        let ghost ways = self@.selected_ways;
        let ghost nodes = self@.nodes;
        let ghost start = self@.counts;
        let ghost nsel = self@.selected_nodes.len() as int;
        let limits = self.limits;
        let mut seen: BTreeSet<i64> = BTreeSet::new();
        let mut vertices: usize = 0;
        let mut counts = self.counts;
        let mut out: Vec<OsmFeature> = Vec::new();
        let ghost mut emitted: Seq<FeatureModel> = Seq::empty();
        let mut j: usize = 0;
        proof {
            assert(ways.take(0) =~= Seq::<WayDraft>::empty());
            assert(features_view(out@) =~= Seq::<FeatureModel>::empty());
            assert(seen@ =~= Set::<i64>::empty());
        }
        while j < self.selected_ways.len()
            invariant
                self.wf(),
                limits == self.limits,
                ways == self@.selected_ways,
                nodes == self@.nodes,
                start == self@.counts,
                nsel == self@.selected_nodes.len(),
                j <= ways.len(),
                way_phase(ways.take(j as int), nodes, start, limits, schema) == Ok::<WayPhase, ScanFailure>(
                    WayPhase { seen: seen@, vertices: vertices as int, counts, features: emitted },
                ),
                emitted.len() == j,
                out@.len() == j,
                counts.selected_way_features == j,
                categories_at_most(counts.selected_features_by_category, nsel + j),
                vertices <= limits.max_nodes,
                ordered_by_id(features_view(out@)),
                features_view(out@).to_multiset() == emitted.to_multiset(),
            decreases ways.len() - j,
        {
            let way = &self.selected_ways[j].0;
            let categories = &self.selected_ways[j].1;
            let ghost w = ways[j as int];
            proof {
                assert(ways.take(j + 1).drop_last() =~= ways.take(j as int));
                assert(ways.take(j + 1).last() == w);
                assert(w == way_draft(*way));
            }
            if seen.contains(&way.id) {
                proof {
                    lemma_way_phase_stops(ways, nodes, start, limits, schema, j + 1);
                }
                return Err(OsmLayoutError::DuplicateIdentifier { object_type: owned("way"), id: way.id });
            }
            let resolved = match resolve_references(way.id, &way.node_references, &self.nodes) {
                Ok(v) => v,
                Err(e) => {
                    proof {
                        lemma_way_phase_stops(ways, nodes, start, limits, schema, j + 1);
                    }
                    return Err(e);
                },
            };
            let ghost resolved_view = resolved@;
            let geometry = match schema {
                OsmObservationSchema::LegacyBounds => {
                    if resolved.len() == 0 {
                        proof {
                            lemma_way_phase_stops(ways, nodes, start, limits, schema, j + 1);
                        }
                        return Err(OsmLayoutError::MissingNodeReference { way_id: way.id, node_id: 0 });
                    }
                    FeatureGeometry::Bounds {
                        nodes: ordinals(&resolved),
                        referenced_node_count: way.node_references.len() as u64,
                    }
                },
                OsmObservationSchema::WayNodeSequences => {
                    if resolved.len() > limits.max_nodes - vertices {
                        proof {
                            lemma_way_phase_stops(ways, nodes, start, limits, schema, j + 1);
                        }
                        return Err(
                            OsmLayoutError::LimitExceeded {
                                name: owned("max_selected_way_vertices"),
                                limit: limits.max_nodes,
                            },
                        );
                    }
                    vertices = vertices + resolved.len();
                    FeatureGeometry::WayNodeSequence { nodes: resolved }
                },
            };
            seen.insert(way.id);
            let ghost names = string_views(categories@);
            proof {
                assert(string_views(self.selected_ways@[j as int].1@) == tag_categories(
                    self.selected_ways@[j as int].0.tags@,
                ));
                lemma_count_feature(counts.selected_features_by_category, way.tags@, nsel + j);
                lemma_category_list(way.tags@, Seq::empty());
                assert forall|i: int| 0 <= i < categories@.len() implies is_category_name(
                    #[trigger] categories@[i]@,
                ) by {
                    assert(names[i] == categories@[i]@);
                }
            }
            counts.selected_way_features = counts.selected_way_features + 1;
            increment_categories(&mut counts, categories);
            let f = OsmFeature {
                object_type: owned("way"),
                object_id: way.id,
                categories: copy_strings(categories),
                relevant_tags: relevant_tags(&way.tags),
                geometry,
            };
            proof {
                let g = match schema {
                    OsmObservationSchema::LegacyBounds => GeometryModel::Bounds(
                        ordinals_of(resolved_view),
                        w.refs.len() as u64,
                    ),
                    OsmObservationSchema::WayNodeSequences => GeometryModel::WayNodes(resolved_view),
                };
                assert(feature_view(f) == way_feature(w, g));
                vstd::seq_lib::to_multiset_build(emitted, feature_view(f));
                emitted = emitted.push(feature_view(f));
            }
            insert_by_id(&mut out, f);
            j += 1;
        }
        proof {
            assert(ways.take(j as int) =~= ways);
        }
        Ok((counts, out))
    }

    /// The outcome once every element boundary has been fed: the counts and
    /// the selected features, nodes then ways, each sorted by identifier.
    pub fn finish(self, schema: OsmObservationSchema) -> (r: Result<OsmInspection, OsmLayoutError>)
        requires
            self.wf(),
        ensures
            match scan_result(self@, self.limits(), schema) {
                Ok(t) => r matches Ok(ins) && ins.counts == t.0 && report_order(
                    features_view(ins.features@),
                    t.1,
                    t.2,
                ),
                Err(f) => r matches Err(e) && failure_is(e, f, self.path()),
            },
    {
        if !self.root_seen {
            return Err(self.wrong_root());
        }
        let mut features = self.node_features();
        let (counts, mut ways) = match self.way_features(schema) {
            Ok(t) => t,
            Err(e) => {
                proof {
                    lemma_way_phase_error_kind(
                        self@.selected_ways,
                        self@.nodes,
                        self@.counts,
                        self.limits,
                        schema,
                    );
                }
                return Err(e);
            },
        };
        let ghost node_view = features_view(features@);
        let ghost way_view = features_view(ways@);
        features.append(&mut ways);
        proof {
            assert(features_view(features@) =~= node_view + way_view);
            assert(features_view(features@).take(node_view.len() as int) =~= node_view);
            assert(features_view(features@).skip(node_view.len() as int) =~= way_view);
        }
        Ok(OsmInspection { counts, features })
    }
}

/// Inspect a whole document's element boundaries at once.
pub fn inspect_osm_xml(
    path: &str,
    events: &Vec<OsmXmlEvent>,
    limits: OsmInspectionLimits,
    schema: OsmObservationSchema,
) -> (r: Result<OsmInspection, OsmLayoutError>)
    requires
        limits.max_nodes + limits.max_ways <= u64::MAX,
    ensures
        match scan_events(scan_start(), events@, limits) {
            Err(f) => r matches Err(e) && failure_is(e, f, path@),
            Ok(m) => match scan_result(m, limits, schema) {
                Ok(t) => r matches Ok(ins) && ins.counts == t.0 && report_order(
                    features_view(ins.features@),
                    t.1,
                    t.2,
                ),
                Err(f) => r matches Err(e) && failure_is(e, f, path@),
            },
        },
{
    let mut scan = OsmScan::new(path, limits);
    let mut i: usize = 0;
    proof {
        assert(events@.skip(0) =~= events@);
    }
    while i < events.len()
        invariant
            scan.wf(),
            scan.limits() == limits,
            scan.path() == path@,
            i <= events@.len(),
            scan_events(scan_start(), events@, limits) == scan_events(scan@, events@.skip(i as int), limits),
        decreases events@.len() - i,
    {
        proof {
            assert(events@.skip(i as int)[0] == events@[i as int]);
            assert(events@.skip(i as int).drop_first() =~= events@.skip(i + 1));
        }
        match scan.step(&events[i]) {
            Ok(()) => {},
            Err(e) => {
                return Err(e);
            },
        }
        i += 1;
    }
    scan.finish(schema)
}

/// Every kept node and way has a category.
pub open spec fn kept_objects_selected(m: ScanModel) -> bool {
    &&& forall|i: int| 0 <= i < m.selected_nodes.len() ==> #[trigger] tag_categories(m.selected_nodes[i].tags).len() > 0
    &&& forall|i: int| 0 <= i < m.selected_ways.len() ==> #[trigger] tag_categories(m.selected_ways[i].tags).len() > 0
}

proof fn lemma_tag_insert_unique(
    tags: Seq<(String, String)>,
    tag_count: usize,
    id: i64,
    object_type: Seq<char>,
    key: String,
    value: String,
    limits: OsmInspectionLimits,
)
    requires
        tags_unique(tags),
        tag_count <= limits.max_tags_per_object,
    ensures
        tag_insert(tags, tag_count, id, object_type, key, value, limits) matches Ok(t) ==> tags_unique(t.0)
            && t.1 <= limits.max_tags_per_object,
{
    if tag_insert(tags, tag_count, id, object_type, key, value, limits) is Ok {
        assert forall|i: int| 0 <= i < tags.len() implies #[trigger] tags[i].0@ != key@ by {
            if tags[i].0@ == key@ {
                crate::layout::lemma_tag_value_found(tags, key@, i);
            }
        }
        let t = tags.push((key, value));
        assert forall|i: int, j: int| 0 <= i < j < t.len() implies #[trigger] t[i].0@ != #[trigger] t[j].0@ by {
            if j == tags.len() {
                assert(t[i] == tags[i]);
            } else {
                assert(t[i] == tags[i] && t[j] == tags[j]);
            }
        }
    }
}

proof fn lemma_end_event_wf(m: ScanModel, name: Seq<char>, limits: OsmInspectionLimits)
    requires
        scan_wf(m, limits),
        kept_objects_selected(m),
    ensures
        end_event(m, name) matches Ok(m2) ==> scan_wf(m2, limits) && kept_objects_selected(m2),
{
    if name == "node"@ {
        if let Some(d) = m.node {
            if !m.nodes.contains_key(d.id) && tag_categories(d.tags).len() > 0 {
                lemma_count_feature(
                    m.counts.selected_features_by_category,
                    d.tags,
                    m.selected_nodes.len() as int,
                );
                let m2 = end_event(m, name)->Ok_0;
                assert forall|i: int| 0 <= i < m2.selected_nodes.len() implies #[trigger] tag_categories(
                    m2.selected_nodes[i].tags,
                ).len() > 0 by {
                    if i < m.selected_nodes.len() {
                        assert(m2.selected_nodes[i] == m.selected_nodes[i]);
                    }
                }
            }
        }
    } else if name == "way"@ {
        if let Some(w) = m.way {
            if tag_categories(w.tags).len() > 0 {
                let m2 = end_event(m, name)->Ok_0;
                assert forall|i: int| 0 <= i < m2.selected_ways.len() implies #[trigger] tag_categories(
                    m2.selected_ways[i].tags,
                ).len() > 0 by {
                    if i < m.selected_ways.len() {
                        assert(m2.selected_ways[i] == m.selected_ways[i]);
                    }
                }
            }
        }
    }
}

proof fn lemma_start_event_wf(
    m: ScanModel,
    name: Seq<char>,
    attributes: Seq<(String, String)>,
    latitude_in_range: bool,
    longitude_in_range: bool,
    limits: OsmInspectionLimits,
)
    requires
        scan_wf(m, limits),
        kept_objects_selected(m),
    ensures
        start_event(m, name, attributes, latitude_in_range, longitude_in_range, limits) matches Ok(m2)
            ==> scan_wf(m2, limits) && kept_objects_selected(m2),
{
    if let (Some(k), Some(v)) = (attribute_value(attributes, "k"@), attribute_value(attributes, "v"@)) {
        if let Some(d) = m.node {
            lemma_tag_insert_unique(d.tags, d.tag_count, d.id, "node"@, k, v, limits);
        } else if let Some(w) = m.way {
            lemma_tag_insert_unique(w.tags, w.tag_count, w.id, "way"@, k, v, limits);
        }
    }
}

proof fn lemma_scan_events_wf(m: ScanModel, events: Seq<OsmXmlEvent>, limits: OsmInspectionLimits)
    requires
        scan_wf(m, limits),
        kept_objects_selected(m),
    ensures
        scan_events(m, events, limits) matches Ok(m2) ==> scan_wf(m2, limits) && kept_objects_selected(m2),
    decreases events.len(),
{
    if events.len() > 0 {
        match events[0] {
            OsmXmlEvent::Start { name, attributes, latitude_in_range, longitude_in_range } => {
                lemma_start_event_wf(m, name@, attributes@, latitude_in_range, longitude_in_range, limits);
            },
            OsmXmlEvent::End { name } => {
                lemma_end_event_wf(m, name@, limits);
            },
        }
        if let Ok(m1) = scan_step(m, events[0], limits) {
            lemma_scan_events_wf(m1, events.drop_first(), limits);
        }
    }
}

/// Whatever the document, an inspection that gets through its elements has
/// parsed at most `max_nodes` nodes and `max_ways` ways, counts exactly the
/// nodes it kept, keeps only objects whose tags select a category, and never
/// holds an open object over the bounds on tags and node references.
pub proof fn lemma_scan_respects_limits(events: Seq<OsmXmlEvent>, limits: OsmInspectionLimits)
    ensures
        scan_events(scan_start(), events, limits) matches Ok(m) ==> scan_wf(m, limits)
            && kept_objects_selected(m),
{
    lemma_scan_events_wf(scan_start(), events, limits);
}

/// The count of category `name` in `c`.
pub open spec fn category_count(c: CategoryCounts, name: Seq<char>) -> int {
    if name == "building"@ {
        c.building as int
    } else if name == "elevator"@ {
        c.elevator as int
    } else if name == "entrance"@ {
        c.entrance as int
    } else if name == "indoor_area"@ {
        c.indoor_area as int
    } else if name == "pedestrian_way"@ {
        c.pedestrian_way as int
    } else if name == "platform"@ {
        c.platform as int
    } else if name == "station"@ {
        c.station as int
    } else if name == "steps"@ {
        c.steps as int
    } else {
        0
    }
}

/// How many of the features name category `name`.
pub open spec fn category_total(features: Seq<FeatureModel>, name: Seq<char>) -> int
    decreases features.len(),
{
    if features.len() == 0 {
        0
    } else {
        category_total(features.drop_last(), name) + occurrences(features.last().categories, name)
    }
}

/// The features of the kept nodes, in document order.
pub open spec fn node_features_of(nodes: Seq<NodeDraft>) -> Seq<FeatureModel> {
    nodes.map_values(|d: NodeDraft| node_feature(d))
}

/// Every category count is the number of `features` that name the category.
pub open spec fn counts_summarize(c: CategoryCounts, features: Seq<FeatureModel>) -> bool {
    forall|name: Seq<char>| is_category_name(name) ==> #[trigger] category_count(c, name) == category_total(features, name)
}

proof fn lemma_category_count_after(c: CategoryCounts, names: Seq<Seq<char>>, name: Seq<char>)
    requires
        counts_fit(c, names),
        is_category_name(name),
    ensures
        category_count(counts_after(c, names), name) == category_count(c, name) + occurrences(names, name),
{
    crate::layout::lemma_category_names_distinct();
}

proof fn lemma_category_total_concat(a: Seq<FeatureModel>, b: Seq<FeatureModel>, name: Seq<char>)
    ensures
        category_total(a + b, name) == category_total(a, name) + category_total(b, name),
    decreases b.len(),
{
    if b.len() == 0 {
        assert(a + b =~= a);
    } else {
        lemma_category_total_concat(a, b.drop_last(), name);
        assert((a + b).drop_last() =~= a + b.drop_last());
    }
}

proof fn lemma_end_event_counts(m: ScanModel, name: Seq<char>, limits: OsmInspectionLimits)
    requires
        scan_wf(m, limits),
        counts_summarize(m.counts.selected_features_by_category, node_features_of(m.selected_nodes)),
    ensures
        end_event(m, name) matches Ok(m2) ==> counts_summarize(
            m2.counts.selected_features_by_category,
            node_features_of(m2.selected_nodes),
        ),
{
    if name == "node"@ {
        if let Some(d) = m.node {
            if !m.nodes.contains_key(d.id) && tag_categories(d.tags).len() > 0 {
                lemma_count_feature(
                    m.counts.selected_features_by_category,
                    d.tags,
                    m.selected_nodes.len() as int,
                );
                let m2 = end_event(m, name)->Ok_0;
                let before = node_features_of(m.selected_nodes);
                assert(node_features_of(m2.selected_nodes) =~= before.push(node_feature(d)));
                assert(before.push(node_feature(d)).drop_last() =~= before);
                assert forall|n: Seq<char>| is_category_name(n) implies #[trigger] category_count(
                    m2.counts.selected_features_by_category,
                    n,
                ) == category_total(node_features_of(m2.selected_nodes), n) by {
                    lemma_category_count_after(
                        m.counts.selected_features_by_category,
                        tag_categories(d.tags),
                        n,
                    );
                    assert(category_count(m.counts.selected_features_by_category, n) == category_total(
                        before,
                        n,
                    ));
                }
            }
        }
    }
}

proof fn lemma_scan_events_counts(m: ScanModel, events: Seq<OsmXmlEvent>, limits: OsmInspectionLimits)
    requires
        scan_wf(m, limits),
        kept_objects_selected(m),
        counts_summarize(m.counts.selected_features_by_category, node_features_of(m.selected_nodes)),
    ensures
        scan_events(m, events, limits) matches Ok(m2) ==> counts_summarize(
            m2.counts.selected_features_by_category,
            node_features_of(m2.selected_nodes),
        ),
    decreases events.len(),
{
    if events.len() > 0 {
        match events[0] {
            OsmXmlEvent::Start { name, attributes, latitude_in_range, longitude_in_range } => {
                lemma_start_event_wf(m, name@, attributes@, latitude_in_range, longitude_in_range, limits);
            },
            OsmXmlEvent::End { name } => {
                lemma_end_event_wf(m, name@, limits);
                lemma_end_event_counts(m, name@, limits);
            },
        }
        if let Ok(m1) = scan_step(m, events[0], limits) {
            lemma_scan_events_counts(m1, events.drop_first(), limits);
        }
    }
}

proof fn lemma_way_phase_counts(
    ways: Seq<WayDraft>,
    nodes: Map<i64, usize>,
    counts: OsmLayoutCounts,
    limits: OsmInspectionLimits,
    schema: OsmObservationSchema,
    n0: int,
)
    requires
        categories_at_most(counts.selected_features_by_category, n0),
        0 <= n0,
        n0 + ways.len() <= u64::MAX,
        counts.selected_way_features == 0,
    ensures
        way_phase(ways, nodes, counts, limits, schema) matches Ok(p) ==> {
            &&& p.features.len() <= ways.len()
            &&& p.counts.selected_way_features == p.features.len()
            &&& p.counts.selected_node_features == counts.selected_node_features
            &&& categories_at_most(p.counts.selected_features_by_category, n0 + p.features.len())
            &&& forall|name: Seq<char>|
                is_category_name(name) ==> #[trigger] category_count(p.counts.selected_features_by_category, name)
                    == category_count(counts.selected_features_by_category, name) + category_total(
                    p.features,
                    name,
                )
        },
    decreases ways.len(),
{
    if ways.len() > 0 {
        lemma_way_phase_counts(ways.drop_last(), nodes, counts, limits, schema, n0);
        if let Ok(p) = way_phase(ways.drop_last(), nodes, counts, limits, schema) {
            let w = ways.last();
            if let Ok(p2) = way_step(p, w, nodes, limits, schema) {
                lemma_count_feature(
                    p.counts.selected_features_by_category,
                    w.tags,
                    n0 + p.features.len(),
                );
                let f = p2.features.last();
                assert(p2.features.drop_last() =~= p.features);
                assert(f.categories == tag_categories(w.tags));
                assert forall|n: Seq<char>| is_category_name(n) implies #[trigger] category_count(
                    p2.counts.selected_features_by_category,
                    n,
                ) == category_count(counts.selected_features_by_category, n) + category_total(
                    p2.features,
                    n,
                ) by {
                    lemma_category_count_after(
                        p.counts.selected_features_by_category,
                        tag_categories(w.tags),
                        n,
                    );
                    assert(category_count(p.counts.selected_features_by_category, n) == category_count(
                        counts.selected_features_by_category,
                        n,
                    ) + category_total(p.features, n));
                }
            }
        }
    }
}

/// The counts of a finished inspection summarize what it found: as many
/// node features and way features as it lists, and for each category the
/// number of listed features that name it.
pub proof fn lemma_counts_summarize_features(
    events: Seq<OsmXmlEvent>,
    limits: OsmInspectionLimits,
    schema: OsmObservationSchema,
)
    requires
        limits.max_nodes + limits.max_ways <= u64::MAX,
    ensures
        scan_events(scan_start(), events, limits) matches Ok(m) ==> (scan_result(m, limits, schema) matches Ok(t)
            ==> {
            &&& t.0.selected_node_features == t.1.len()
            &&& t.0.selected_way_features == t.2.len()
            &&& counts_summarize(t.0.selected_features_by_category, t.1 + t.2)
        }),
{
    let start = scan_start();
    assert(node_features_of(start.selected_nodes) =~= Seq::<FeatureModel>::empty());
    assert forall|name: Seq<char>| is_category_name(name) implies #[trigger] category_count(
        start.counts.selected_features_by_category,
        name,
    ) == category_total(node_features_of(start.selected_nodes), name) by {}
    lemma_scan_events_wf(start, events, limits);
    lemma_scan_events_counts(start, events, limits);
    if let Ok(m) = scan_events(start, events, limits) {
        if m.root_seen {
            let n0 = m.selected_nodes.len() as int;
            lemma_way_phase_counts(m.selected_ways, m.nodes, m.counts, limits, schema, n0);
            if let Ok(p) = way_phase(m.selected_ways, m.nodes, m.counts, limits, schema) {
                let nf = node_features_of(m.selected_nodes);
                assert(scan_result(m, limits, schema) == Ok::<
                    (OsmLayoutCounts, Seq<FeatureModel>, Seq<FeatureModel>),
                    ScanFailure,
                >((p.counts, nf, p.features)));
                assert forall|name: Seq<char>| is_category_name(name) implies #[trigger] category_count(
                    p.counts.selected_features_by_category,
                    name,
                ) == category_total(nf + p.features, name) by {
                    lemma_category_total_concat(nf, p.features, name);
                    assert(category_count(m.counts.selected_features_by_category, name) == category_total(
                        nf,
                        name,
                    ));
                }
            }
        }
    }
}

proof fn lemma_element_names_distinct()
    ensures
        "osm"@ != "node"@,
        "osm"@ != "way"@,
        "osm"@ != "tag"@,
        "osm"@ != "nd"@,
        "node"@ != "way"@,
        "node"@ != "tag"@,
        "node"@ != "nd"@,
        "way"@ != "tag"@,
        "way"@ != "nd"@,
        "tag"@ != "nd"@,
{
    reveal_strlit("osm");
    reveal_strlit("node");
    reveal_strlit("way");
    reveal_strlit("tag");
    reveal_strlit("nd");
    assert("osm"@[0] == 'o' && "node"@[0] == 'n' && "way"@[0] == 'w' && "tag"@[0] == 't');
    assert("nd"@[0] == 'n' && "nd"@.len() == 2 && "node"@.len() == 4);
}

/// One element boundary as read from a document: whether it starts an
/// element, the element's local name, and (for a start) its attributes'
/// local names and values, in order.
pub type XmlElement = (bool, Seq<char>, Seq<(Seq<char>, Seq<char>)>);

/// The element boundaries of an XML document, read with the bounds of an
/// OSM extract (entity expansion at most 8 KiB and 8 deep, at most 256
/// attributes, names of at most 256 and attribute values and text of at most
/// 8 KiB, one root), up to the first error, and that error's message if the
/// document is not well formed.
pub uninterp spec fn xml_elements(document: Seq<u8>) -> (Seq<XmlElement>, Option<Seq<char>>);

pub open spec fn pair_views(v: Seq<(String, String)>) -> Seq<(Seq<char>, Seq<char>)> {
    v.map_values(|p: (String, String)| (p.0@, p.1@))
}

pub open spec fn elements_view(r: (Vec<(bool, String, Vec<(String, String)>)>, Option<String>)) -> (
    Seq<XmlElement>,
    Option<Seq<char>>,
) {
    (
        r.0@.map_values(|e: (bool, String, Vec<(String, String)>)| (e.0, e.1@, pair_views(e.2@))),
        match r.1 {
            Some(m) => Some(m@),
            None => None,
        },
    )
}

/// `xml::reader::ParserConfig` with the bounds of an OSM extract, reading
/// `document`: each `StartElement` and `EndElement` with its local name and
/// attributes, until the first error. Claimed: the result is a function of
/// the bytes alone, named `xml_elements`.
#[verifier::external_body]
fn read_xml_elements(document: &[u8]) -> (r: (Vec<(bool, String, Vec<(String, String)>)>, Option<String>))
    ensures
        elements_view(r) == xml_elements(document@),
{
    let config = ParserConfig::new().trim_whitespace(true).ignore_comments(true).coalesce_characters(false).allow_multiple_root_elements(false).max_entity_expansion_length(8192).max_entity_expansion_depth(8).max_attributes(256).max_name_length(256).max_attribute_length(8192).max_data_length(8192);
    let mut out = Vec::new();
    for event in config.create_reader(document) {
        match event {
            Ok(XmlEvent::StartElement { name, attributes, .. }) => out.push((true, name.local_name, attributes.into_iter().map(|a| (a.name.local_name, a.value)).collect())),
            Ok(XmlEvent::EndElement { name }) => out.push((false, name.local_name, Vec::new())),
            Ok(_) => {},
            Err(error) => return (out, Some(error.to_string())),
        }
    }
    (out, None)
}

/// The element boundaries of an XML document read with the bounds of an OSM
/// extract, and the error that stopped the reading, if any.
pub fn xml_document_elements(document: &[u8]) -> (r: (Vec<(bool, String, Vec<(String, String)>)>, Option<String>))
    ensures
        elements_view(r) == xml_elements(document@),
{
    read_xml_elements(document)
}

/// The coordinate checks the caller made of element `i`, or none.
pub open spec fn check_at(checks: Seq<(bool, bool)>, i: int) -> (bool, bool) {
    if 0 <= i < checks.len() {
        checks[i]
    } else {
        (false, false)
    }
}

/// `ev` are the element boundaries `els`, with the coordinate checks `checks`
/// given for the start tags.
pub open spec fn events_match(ev: Seq<OsmXmlEvent>, els: Seq<XmlElement>, checks: Seq<(bool, bool)>) -> bool {
    &&& ev.len() == els.len()
    &&& forall|i: int|
        0 <= i < ev.len() ==> match #[trigger] ev[i] {
            OsmXmlEvent::Start { name, attributes, latitude_in_range, longitude_in_range } => els[i].0
                && name@ == els[i].1 && pair_views(attributes@) == els[i].2 && (latitude_in_range, longitude_in_range)
                == check_at(checks, i),
            OsmXmlEvent::End { name } => !els[i].0 && name@ == els[i].1,
        }
}

fn copy_pairs(v: &Vec<(String, String)>) -> (r: Vec<(String, String)>)
    ensures
        pair_views(r@) == pair_views(v@),
{
    let mut out: Vec<(String, String)> = Vec::new();
    let mut i: usize = 0;
    while i < v.len()
        invariant
            i <= v@.len(),
            out@.len() == i,
            pair_views(out@) == pair_views(v@.take(i as int)),
        decreases v@.len() - i,
    {
        let pair = (owned(v[i].0.as_str()), owned(v[i].1.as_str()));
        proof {
            assert(v@.take(i + 1) =~= v@.take(i as int).push(v@[i as int]));
            assert(pair.0@ == v@[i as int].0@ && pair.1@ == v@[i as int].1@);
        }
        let ghost before = out@;
        out.push(pair);
        proof {
            assert forall|j: int| 0 <= j < out@.len() implies #[trigger] pair_views(out@)[j] == pair_views(v@.take(i + 1))[j] by {
                if j < i {
                    assert(out@[j] == before[j]);
                    assert(pair_views(before)[j] == pair_views(v@.take(i as int))[j]);
                }
            }
        }
        proof {
            assert(pair_views(out@) =~= pair_views(v@.take(i + 1)));
        }
        i += 1;
    }
    proof {
        assert(v@.take(v@.len() as int) =~= v@);
    }
    out
}

/// Inspect the OSM XML document `document` found at `path`. `checks` gives,
/// for each element boundary in document order, whether a start tag's `lat`
/// and `lon` attributes, where present, hold finite degrees in range. The
/// elements are scanned as they come; a failure of the scan comes before a
/// reading error later in the document, which is reported as invalid XML.
pub fn inspect_osm_document(
    path: &str,
    document: &[u8],
    checks: &Vec<(bool, bool)>,
    limits: OsmInspectionLimits,
    schema: OsmObservationSchema,
) -> (r: Result<OsmInspection, OsmLayoutError>)
    requires
        limits.max_nodes + limits.max_ways <= u64::MAX,
    ensures
        exists|ev: Seq<OsmXmlEvent>|
            events_match(ev, xml_elements(document@).0, checks@) && match scan_events(scan_start(), ev, limits) {
                Err(f) => r matches Err(e) && failure_is(e, f, path@),
                Ok(m) => match xml_elements(document@).1 {
                    Some(message) => r matches Err(OsmLayoutError::Xml { path: p, message: t }) && p@ == path@
                        && t@ == message,
                    None => match scan_result(m, limits, schema) {
                        Ok(t) => r matches Ok(ins) && ins.counts == t.0 && report_order(
                            features_view(ins.features@),
                            t.1,
                            t.2,
                        ),
                        Err(f) => r matches Err(e) && failure_is(e, f, path@),
                    },
                },
            },
{
    let (elements, error) = read_xml_elements(document);
    let ghost els = xml_elements(document@).0;
    let mut events: Vec<OsmXmlEvent> = Vec::new();
    let mut i: usize = 0;
    while i < elements.len()
        invariant
            els == elements_view((elements, error)).0,
            i <= elements@.len(),
            events@.len() == i,
            events_match(events@, els.take(i as int), checks@),
        decreases elements@.len() - i,
    {
        let element = &elements[i];
        let (lat, lon) = if i < checks.len() {
            checks[i]
        } else {
            (false, false)
        };
        let event = if element.0 {
            OsmXmlEvent::Start {
                name: owned(element.1.as_str()),
                attributes: copy_pairs(&element.2),
                latitude_in_range: lat,
                longitude_in_range: lon,
            }
        } else {
            OsmXmlEvent::End { name: owned(element.1.as_str()) }
        };
        let ghost before = events@;
        events.push(event);
        proof {
            assert(els.take(i + 1) =~= els.take(i as int).push(els[i as int]));
            assert forall|j: int| 0 <= j < events@.len() implies match #[trigger] events@[j] {
                OsmXmlEvent::Start { name, attributes, latitude_in_range, longitude_in_range } => els.take(i + 1)[j].0
                    && name@ == els.take(i + 1)[j].1 && pair_views(attributes@) == els.take(i + 1)[j].2 && (
                    latitude_in_range,
                    longitude_in_range,
                ) == check_at(checks@, j),
                OsmXmlEvent::End { name } => !els.take(i + 1)[j].0 && name@ == els.take(i + 1)[j].1,
            } by {
                if j < i {
                    assert(events@[j] == before[j]);
                    assert(els.take(i + 1)[j] == els.take(i as int)[j]);
                }
            }
        }
        i += 1;
    }
    proof {
        assert(els.take(elements@.len() as int) =~= els);
    }
    let ghost ev = events@;
    assert(events_match(ev, xml_elements(document@).0, checks@));
    let mut scan = OsmScan::new(path, limits);
    let mut k: usize = 0;
    proof {
        assert(events@.skip(0) =~= events@);
    }
    while k < events.len()
        invariant
            scan.wf(),
            scan.limits() == limits,
            scan.path() == path@,
            k <= events@.len(),
            scan_events(scan_start(), events@, limits) == scan_events(scan@, events@.skip(k as int), limits),
            ev == events@,
            events_match(ev, xml_elements(document@).0, checks@),
        decreases events@.len() - k,
    {
        proof {
            assert(events@.skip(k as int)[0] == events@[k as int]);
            assert(events@.skip(k as int).drop_first() =~= events@.skip(k + 1));
        }
        match scan.step(&events[k]) {
            Ok(()) => {},
            Err(e) => {
                let r: Result<OsmInspection, OsmLayoutError> = Err(e);
                assert(scan_events(scan_start(), ev, limits) is Err);
                return r;
            },
        }
        k += 1;
    }
    proof {
        assert(events@.skip(events@.len() as int) =~= Seq::<OsmXmlEvent>::empty());
    }
    assert(elements_view((elements, error)).1 == xml_elements(document@).1);
    match error {
        Some(message) => Err(OsmLayoutError::Xml { path: owned(path), message }),
        None => scan.finish(schema),
    }
}

} // verus!
