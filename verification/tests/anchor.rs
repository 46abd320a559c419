use chiyoda_core::anchor::{
    anchor_target_identity, validate_osm_scenario_anchor_manifest, OsmScenarioAnchorManifest,
    OsmScenarioAnchorSource, OsmScenarioAnchorTarget, OsmScenarioCoordinateAnchor,
};

fn anchor(id: &str, target: OsmScenarioAnchorTarget, source: OsmScenarioAnchorSource) -> OsmScenarioCoordinateAnchor {
    OsmScenarioCoordinateAnchor {
        id: id.to_owned(),
        target,
        source,
        rationale: "surveyed entrance".to_owned(),
    }
}

fn manifest(anchors: Vec<OsmScenarioCoordinateAnchor>) -> OsmScenarioAnchorManifest {
    OsmScenarioAnchorManifest {
        schema_version: "0.1".to_owned(),
        name: "station anchors".to_owned(),
        description: "entrances tied to mapped nodes".to_owned(),
        scenario_source: "scenarios/station.chy".to_owned(),
        anchors,
        claim_boundary: "point provenance only".to_owned(),
    }
}

fn texts(manifest: &OsmScenarioAnchorManifest) -> Vec<String> {
    match validate_osm_scenario_anchor_manifest(manifest) {
        Ok(()) => Vec::new(),
        Err(errors) => errors.iter().map(|e| e.to_text()).collect(),
    }
}

#[test]
fn a_manifest_with_distinct_anchors_is_accepted() {
    let m = manifest(vec![
        anchor(
            "north-door",
            OsmScenarioAnchorTarget::Exit { id: "north".to_owned() },
            OsmScenarioAnchorSource::NodeFeature { object_id: 7, category: "entrance".to_owned() },
        ),
        anchor(
            "platform_end",
            OsmScenarioAnchorTarget::Waypoint { id: "north".to_owned() },
            OsmScenarioAnchorSource::WayNode {
                object_id: 9,
                node_id: 3,
                category: "platform".to_owned(),
            },
        ),
    ]);
    assert!(validate_osm_scenario_anchor_manifest(&m).is_ok());
}

#[test]
fn repeated_anchors_and_bad_sources_are_reported() {
    let m = manifest(vec![
        anchor(
            "a",
            OsmScenarioAnchorTarget::Gate { id: "g".to_owned() },
            OsmScenarioAnchorSource::NodeFeature { object_id: 1, category: "entrance".to_owned() },
        ),
        anchor(
            "a",
            OsmScenarioAnchorTarget::Gate { id: "g".to_owned() },
            OsmScenarioAnchorSource::WayNode {
                object_id: 0,
                node_id: -2,
                category: " ".to_owned(),
            },
        ),
    ]);
    assert_eq!(
        texts(&m),
        vec![
            "anchors[1].id: must be unique",
            "anchors[1].target: must not be anchored more than once",
            "anchors[1].source.object_id: must be greater than zero",
            "anchors[1].source.category: must not be empty",
            "anchors[1].source.node_id: must be greater than zero",
        ]
    );
}

#[test]
fn manifest_fields_are_checked_in_order() {
    let mut m = manifest(Vec::new());
    m.schema_version = "0.2".to_owned();
    m.name = " ".to_owned();
    m.scenario_source = "../outside.chy".to_owned();
    assert_eq!(
        texts(&m),
        vec![
            "schema_version: must be `0.1`",
            "name: must not be empty",
            "scenario_source: must be a non-empty relative path without `.` or `..` components",
            "anchors: must not be empty",
        ]
    );
}

#[test]
fn anchor_targets_name_their_kind() {
    let target = OsmScenarioAnchorTarget::AgentSpawn { id: "crowd".to_owned() };
    assert_eq!(anchor_target_identity(&target), ("agent_spawn", "crowd"));
    let target = OsmScenarioAnchorTarget::ConnectorTo { id: "up".to_owned() };
    assert_eq!(anchor_target_identity(&target), ("connector_to", "up"));
}
