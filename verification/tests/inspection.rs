use chiyoda_core::inspection::{
    inspect_osm_document, inspect_osm_xml, xml_document_elements, parse_identifier, FeatureGeometry, OsmInspection, OsmScan, OsmXmlEvent,
};
use chiyoda_core::layout::{
    osm_geographic_coordinate_reference, osm_observation_claim_boundary, osm_observation_status, OsmInspectionLimits, OsmLayoutError,
    OsmObservationSchema,
};

fn start(name: &str, attributes: &[(&str, &str)]) -> OsmXmlEvent {
    OsmXmlEvent::Start {
        name: name.to_owned(),
        attributes: attributes
            .iter()
            .map(|(k, v)| (k.to_string(), v.to_string()))
            .collect(),
        latitude_in_range: true,
        longitude_in_range: true,
    }
}

fn end(name: &str) -> OsmXmlEvent {
    OsmXmlEvent::End {
        name: name.to_owned(),
    }
}

fn node(events: &mut Vec<OsmXmlEvent>, id: &str, tags: &[(&str, &str)]) {
    events.push(start("node", &[("id", id), ("lat", "1.3"), ("lon", "103.8")]));
    for (k, v) in tags {
        events.push(start("tag", &[("k", k), ("v", v)]));
        events.push(end("tag"));
    }
    events.push(end("node"));
}

fn way(events: &mut Vec<OsmXmlEvent>, id: &str, refs: &[&str], tags: &[(&str, &str)]) {
    events.push(start("way", &[("id", id)]));
    for r in refs {
        events.push(start("nd", &[("ref", r)]));
        events.push(end("nd"));
    }
    for (k, v) in tags {
        events.push(start("tag", &[("k", k), ("v", v)]));
        events.push(end("tag"));
    }
    events.push(end("way"));
}

fn document(body: impl FnOnce(&mut Vec<OsmXmlEvent>)) -> Vec<OsmXmlEvent> {
    let mut events = vec![start("osm", &[("version", "0.6")])];
    body(&mut events);
    events.push(end("osm"));
    events
}

fn inspect(events: &[OsmXmlEvent], limits: OsmInspectionLimits) -> Result<OsmInspection, OsmLayoutError> {
    inspect_osm_xml(
        "station.osm",
        &events.to_vec(),
        limits,
        OsmObservationSchema::WayNodeSequences,
    )
}

#[test]
fn scan_keeps_selected_objects_and_their_way_nodes() {
    let events = document(|e| {
        node(e, "1", &[("railway", "station")]);
        node(e, "2", &[("entrance", "yes")]);
        node(e, "3", &[]);
        way(e, "9", &["1", "2", "3"], &[("highway", "steps"), ("level", "-1;0")]);
        way(e, "10", &["1", "3"], &[("public_transport", "platform")]);
    });
    let report = inspect(&events, OsmInspectionLimits::default()).expect("inspection succeeds");

    assert_eq!(report.counts.parsed_nodes, 3);
    assert_eq!(report.counts.parsed_ways, 2);
    assert_eq!(report.counts.selected_node_features, 2);
    assert_eq!(report.counts.selected_way_features, 2);
    assert_eq!(report.counts.selected_features_by_category.steps, 1);
    assert_eq!(report.counts.selected_features_by_category.platform, 1);
    assert_eq!(report.counts.selected_features_by_category.station, 1);
    assert_eq!(report.counts.selected_features_by_category.entrance, 1);
    assert_eq!(report.counts.selected_features_by_category.building, 0);
    assert_eq!(report.features.len(), 4);
    assert_eq!(report.features[0].object_type, "node");
    assert_eq!(report.features[0].object_id, 1);
    assert!(matches!(report.features[0].geometry, FeatureGeometry::Point { node: 0 }));
    assert_eq!(report.features[2].object_type, "way");
    assert_eq!(report.features[2].object_id, 9);
    assert_eq!(report.features[2].categories, vec!["steps".to_owned()]);
    assert!(report.features[2]
        .relevant_tags
        .contains(&("level".to_owned(), "-1;0".to_owned())));
    let FeatureGeometry::WayNodeSequence { nodes } = &report.features[2].geometry else {
        panic!("schema 0.2 keeps the way's nodes")
    };
    assert_eq!(nodes, &vec![(1, 0), (2, 1), (3, 2)]);
    assert_eq!(report.features[3].object_id, 10);
}

#[test]
fn inspection_rejects_a_selected_way_with_an_unavailable_node() {
    let events = document(|e| way(e, "9", &["5"], &[("highway", "steps")]));
    let error = inspect(&events, OsmInspectionLimits::default()).expect_err("missing node");
    assert!(matches!(
        error,
        OsmLayoutError::MissingNodeReference {
            way_id: 9,
            node_id: 5
        }
    ));
}

#[test]
fn inspection_bounds_total_selected_way_node_output() {
    let events = document(|e| {
        node(e, "1", &[]);
        node(e, "2", &[]);
        way(e, "9", &["1", "2"], &[("highway", "steps")]);
        way(e, "10", &["2", "1"], &[("highway", "steps")]);
    });
    let limits = OsmInspectionLimits {
        max_nodes: 2,
        max_ways: 2,
        ..OsmInspectionLimits::default()
    };
    let error = inspect(&events, limits).expect_err("way vertices are bounded");
    match error {
        OsmLayoutError::LimitExceeded { name, limit } => {
            assert_eq!(name, "max_selected_way_vertices");
            assert_eq!(limit, 2);
        }
        other => panic!("unexpected error {other:?}"),
    }
}

#[test]
fn inspection_rejects_non_osm_xml_roots() {
    let events = vec![start("layout", &[]), end("layout")];
    let error = inspect(&events, OsmInspectionLimits::default()).expect_err("wrong root");
    match error {
        OsmLayoutError::WrongRoot { path } => assert_eq!(path, "station.osm"),
        other => panic!("unexpected error {other:?}"),
    }
}

#[test]
fn scan_rejects_an_empty_document() {
    let error = inspect(&[], OsmInspectionLimits::default()).expect_err("no root");
    assert!(matches!(error, OsmLayoutError::WrongRoot { .. }));
}

#[test]
fn scan_rejects_a_nested_osm_element() {
    let events = vec![start("osm", &[]), start("osm", &[])];
    let error = inspect(&events, OsmInspectionLimits::default()).expect_err("nested root");
    assert!(matches!(error, OsmLayoutError::WrongRoot { .. }));
}

#[test]
fn scan_sorts_features_by_identifier() {
    let events = document(|e| {
        node(e, "30", &[("entrance", "yes")]);
        node(e, "-4", &[("building", "yes")]);
        node(e, "7", &[("building", "no")]);
        node(e, "12", &[("indoor", "room"), ("building:part", "yes")]);
        way(e, "8", &["30", "-4"], &[("highway", "footway")]);
        way(e, "2", &["7"], &[("highway", "elevator")]);
    });
    let report = inspect(&events, OsmInspectionLimits::default()).expect("inspection succeeds");
    let order: Vec<(String, i64)> = report
        .features
        .iter()
        .map(|f| (f.object_type.clone(), f.object_id))
        .collect();
    assert_eq!(
        order,
        vec![
            ("node".to_owned(), -4),
            ("node".to_owned(), 12),
            ("node".to_owned(), 30),
            ("way".to_owned(), 2),
            ("way".to_owned(), 8),
        ]
    );
    assert_eq!(
        report.features[1].categories,
        vec!["building".to_owned(), "indoor_area".to_owned()]
    );
    assert!(matches!(report.features[2].geometry, FeatureGeometry::Point { node: 0 }));
    assert_eq!(report.counts.selected_features_by_category.building, 2);
    assert_eq!(report.counts.selected_features_by_category.pedestrian_way, 1);
    assert_eq!(report.counts.selected_features_by_category.elevator, 1);
}

#[test]
fn scan_rejects_a_repeated_node_identifier() {
    let events = document(|e| {
        node(e, "1", &[]);
        node(e, "1", &[]);
    });
    let error = inspect(&events, OsmInspectionLimits::default()).expect_err("duplicate node");
    match error {
        OsmLayoutError::DuplicateIdentifier { object_type, id } => {
            assert_eq!(object_type, "node");
            assert_eq!(id, 1);
        }
        other => panic!("unexpected error {other:?}"),
    }
}

#[test]
fn scan_rejects_a_repeated_selected_way_identifier() {
    let events = document(|e| {
        node(e, "1", &[]);
        way(e, "4", &["1"], &[("highway", "steps")]);
        way(e, "4", &["1"], &[("highway", "steps")]);
    });
    let error = inspect(&events, OsmInspectionLimits::default()).expect_err("duplicate way");
    match error {
        OsmLayoutError::DuplicateIdentifier { object_type, id } => {
            assert_eq!(object_type, "way");
            assert_eq!(id, 4);
        }
        other => panic!("unexpected error {other:?}"),
    }
}

#[test]
fn scan_rejects_a_repeated_tag_key() {
    let events = document(|e| node(e, "3", &[("name", "a"), ("name", "b")]));
    let error = inspect(&events, OsmInspectionLimits::default()).expect_err("duplicate tag");
    match error {
        OsmLayoutError::DuplicateTag {
            object_type,
            id,
            key,
        } => {
            assert_eq!(object_type, "node");
            assert_eq!(id, 3);
            assert_eq!(key, "name");
        }
        other => panic!("unexpected error {other:?}"),
    }
}

#[test]
fn scan_bounds_tags_per_object() {
    let events = document(|e| node(e, "3", &[("a", "1"), ("b", "2"), ("c", "3")]));
    let limits = OsmInspectionLimits {
        max_tags_per_object: 2,
        ..OsmInspectionLimits::default()
    };
    let error = inspect(&events, limits).expect_err("too many tags");
    match error {
        OsmLayoutError::LimitExceeded { name, limit } => {
            assert_eq!(name, "max_tags_per_object");
            assert_eq!(limit, 2);
        }
        other => panic!("unexpected error {other:?}"),
    }
}

#[test]
fn scan_bounds_parsed_nodes_and_references() {
    let events = document(|e| {
        node(e, "1", &[]);
        node(e, "2", &[]);
    });
    let limits = OsmInspectionLimits {
        max_nodes: 1,
        ..OsmInspectionLimits::default()
    };
    match inspect(&events, limits).expect_err("too many nodes") {
        OsmLayoutError::LimitExceeded { name, limit } => {
            assert_eq!(name, "max_nodes");
            assert_eq!(limit, 1);
        }
        other => panic!("unexpected error {other:?}"),
    }
    let events = document(|e| way(e, "1", &["1", "2"], &[]));
    let limits = OsmInspectionLimits {
        max_node_references_per_way: 1,
        ..OsmInspectionLimits::default()
    };
    match inspect(&events, limits).expect_err("too many references") {
        OsmLayoutError::LimitExceeded { name, .. } => {
            assert_eq!(name, "max_node_references_per_way")
        }
        other => panic!("unexpected error {other:?}"),
    }
}

#[test]
fn scan_requires_node_attributes_in_order() {
    let events = document(|e| e.push(start("node", &[("lat", "1"), ("lon", "2")])));
    match inspect(&events, OsmInspectionLimits::default()).expect_err("no id") {
        OsmLayoutError::MissingAttribute { element, attribute } => {
            assert_eq!(element, "node");
            assert_eq!(attribute, "id");
        }
        other => panic!("unexpected error {other:?}"),
    }
    let events = document(|e| e.push(start("node", &[("id", "x1"), ("lat", "1")])));
    match inspect(&events, OsmInspectionLimits::default()).expect_err("bad id") {
        OsmLayoutError::InvalidAttribute {
            element,
            attribute,
            value,
        } => {
            assert_eq!((element.as_str(), attribute.as_str(), value.as_str()), ("node", "id", "x1"));
        }
        other => panic!("unexpected error {other:?}"),
    }
    let events = document(|e| {
        e.push(OsmXmlEvent::Start {
            name: "node".to_owned(),
            attributes: vec![
                ("id".to_owned(), "5".to_owned()),
                ("lat".to_owned(), "95".to_owned()),
                ("lon".to_owned(), "2".to_owned()),
            ],
            latitude_in_range: false,
            longitude_in_range: true,
        })
    });
    match inspect(&events, OsmInspectionLimits::default()).expect_err("latitude out of range") {
        OsmLayoutError::InvalidAttribute {
            attribute, value, ..
        } => {
            assert_eq!(attribute, "lat");
            assert_eq!(value, "95");
        }
        other => panic!("unexpected error {other:?}"),
    }
    let events = document(|e| e.push(start("node", &[("id", "5"), ("lat", "1")])));
    match inspect(&events, OsmInspectionLimits::default()).expect_err("no lon") {
        OsmLayoutError::MissingAttribute { attribute, .. } => assert_eq!(attribute, "lon"),
        other => panic!("unexpected error {other:?}"),
    }
}

#[test]
fn legacy_schema_summarizes_ways_by_their_node_ordinals() {
    let events = document(|e| {
        node(e, "1", &[]);
        node(e, "2", &[]);
        way(e, "9", &["2", "1", "2"], &[("highway", "steps")]);
        way(e, "10", &[], &[("highway", "steps")]);
    });
    let error = inspect_osm_xml(
        "station.osm",
        &events,
        OsmInspectionLimits::default(),
        OsmObservationSchema::LegacyBounds,
    )
    .expect_err("an empty selected way has no bounds");
    assert!(matches!(
        error,
        OsmLayoutError::MissingNodeReference {
            way_id: 10,
            node_id: 0
        }
    ));
    let events = document(|e| {
        node(e, "1", &[]);
        node(e, "2", &[]);
        way(e, "9", &["2", "1", "2"], &[("highway", "steps")]);
    });
    let report = inspect_osm_xml(
        "station.osm",
        &events,
        OsmInspectionLimits::default(),
        OsmObservationSchema::LegacyBounds,
    )
    .expect("legacy inspection succeeds");
    let FeatureGeometry::Bounds {
        nodes,
        referenced_node_count,
    } = &report.features[0].geometry
    else {
        panic!("schema 0.1 summarizes ways by bounds")
    };
    assert_eq!(nodes, &vec![1, 0, 1]);
    assert_eq!(*referenced_node_count, 3);
}

#[test]
fn a_scan_fed_event_by_event_matches_the_whole_document() {
    let events = document(|e| {
        node(e, "1", &[("railway", "platform")]);
        way(e, "2", &["1"], &[("public_transport", "station")]);
    });
    let mut scan = OsmScan::new("station.osm", OsmInspectionLimits::default());
    for event in &events {
        scan.step(event).expect("every event is accepted");
    }
    let report = scan
        .finish(OsmObservationSchema::WayNodeSequences)
        .expect("the scan finishes");
    assert_eq!(report.counts.selected_features_by_category.platform, 1);
    assert_eq!(report.counts.selected_features_by_category.station, 1);
    assert_eq!(report.features.len(), 2);
}

#[test]
fn identifiers_are_signed_decimal_integers() {
    assert_eq!(parse_identifier("nd", "ref", "42").ok(), Some(42));
    assert_eq!(parse_identifier("nd", "ref", "-7").ok(), Some(-7));
    assert_eq!(parse_identifier("nd", "ref", "+7").ok(), Some(7));
    assert!(parse_identifier("nd", "ref", "9223372036854775808").is_err());
    assert_eq!(
        parse_identifier("nd", "ref", "-9223372036854775808").ok(),
        Some(i64::MIN)
    );
    assert!(parse_identifier("nd", "ref", "").is_err());
    assert!(parse_identifier("nd", "ref", "1.0").is_err());
}

fn located_node(events: &mut Vec<OsmXmlEvent>, id: &str, lat: &str, lon: &str, tags: &[(&str, &str)]) {
    events.push(start("node", &[("id", id), ("lat", lat), ("lon", lon)]));
    for (k, v) in tags {
        events.push(start("tag", &[("k", k), ("v", v)]));
        events.push(end("tag"));
    }
    events.push(end("node"));
}

#[test]
fn inspection_preserves_recognized_map_observations_without_scenario_geometry() {
    let events = document(|e| {
        located_node(e, "1", "1.3000", "103.8000", &[("railway", "station")]);
        located_node(e, "2", "1.3001", "103.8000", &[("entrance", "yes")]);
        located_node(e, "3", "1.3001", "103.8001", &[]);
        way(e, "9", &["1", "2", "3"], &[("highway", "steps"), ("level", "-1;0")]);
        way(e, "10", &["1", "3"], &[("public_transport", "platform")]);
    });
    let report = inspect(&events, OsmInspectionLimits::default()).expect("inspection succeeds");

    assert_eq!(osm_observation_status(), "source_observation_only");
    assert_eq!(report.counts.parsed_nodes, 3);
    assert_eq!(report.counts.parsed_ways, 2);
    assert_eq!(report.counts.selected_node_features, 2);
    assert_eq!(report.counts.selected_way_features, 2);
    assert_eq!(OsmObservationSchema::WayNodeSequences.version(), "0.2");
    assert_eq!(report.counts.selected_features_by_category.steps, 1);
    assert_eq!(report.counts.selected_features_by_category.platform, 1);
    assert_eq!(report.features[2].object_id, 9);
    assert!(report.features[2]
        .relevant_tags
        .contains(&("level".to_owned(), "-1;0".to_owned())));
    let FeatureGeometry::WayNodeSequence { nodes } = &report.features[2].geometry else {
        panic!("current reports preserve selected OSM way nodes")
    };
    assert_eq!(nodes.iter().map(|(node_id, _)| *node_id).collect::<Vec<_>>(), [1, 2, 3]);
    assert_eq!(nodes[2].1, 2);
    assert!(osm_geographic_coordinate_reference().contains("WGS84"));
    assert!(osm_observation_claim_boundary().contains("does not establish"));
}

fn inspect_bytes(document: &[u8]) -> Result<OsmInspection, OsmLayoutError> {
    let (elements, _) = xml_document_elements(document);
    let checks = vec![(true, true); elements.len()];
    inspect_osm_document(
        "station.osm",
        document,
        &checks,
        OsmInspectionLimits::default(),
        OsmObservationSchema::WayNodeSequences,
    )
}

const STATION_XML: &str = r#"<?xml version="1.0" encoding="UTF-8"?>
<osm version="0.6">
  <!-- a platform and its station -->
  <node id="1" lat="1.3" lon="103.8"><tag k="railway" v="platform"/></node>
  <way id="2"><nd ref="1"/><tag k="public_transport" v="station"/></way>
</osm>
"#;

#[test]
fn an_osm_document_is_read_from_its_bytes() {
    let (elements, error) = xml_document_elements(STATION_XML.as_bytes());
    assert!(error.is_none());
    assert_eq!(elements.len(), 12);
    assert_eq!(elements[0], (true, "osm".to_owned(), vec![("version".to_owned(), "0.6".to_owned())]));
    assert_eq!(elements[11], (false, "osm".to_owned(), Vec::new()));
    let report = inspect_bytes(STATION_XML.as_bytes()).expect("the document inspects");
    assert_eq!(report.counts.selected_features_by_category.platform, 1);
    assert_eq!(report.counts.selected_features_by_category.station, 1);
    assert_eq!(report.features.len(), 2);
}

#[test]
fn malformed_xml_is_reported_with_its_path() {
    let error = inspect_bytes(b"<osm version=\"0.6\"><node id=\"1\" lat=\"1\" lon=\"2\"></osm>")
        .expect_err("mismatched end element");
    match error {
        OsmLayoutError::Xml { path, message } => {
            assert_eq!(path, "station.osm");
            assert!(!message.is_empty());
        }
        other => panic!("unexpected error {other:?}"),
    }
}

#[test]
fn a_scan_failure_comes_before_a_later_xml_error() {
    let error = inspect_bytes(b"<map><node id=\"1\"></map>").expect_err("wrong root");
    assert!(matches!(error, OsmLayoutError::WrongRoot { path } if path == "station.osm"));
}
