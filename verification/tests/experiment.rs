use chiyoda_core::experiment::{
    validate_experiment_manifest, AssumptionBasis, ExperimentAssumption, ExperimentManifest,
    ExperimentSourceAttestation, SensitivityDerivedReport, SensitivityReference,
};

fn manifest() -> ExperimentManifest {
    ExperimentManifest {
        schema_version: "0.1".to_owned(),
        name: "fixture".to_owned(),
        description: "one uncalibrated structural run".to_owned(),
        scenario_source: "scenario.chy".to_owned(),
        trace_every_steps: 10,
        assumptions: vec![ExperimentAssumption {
            id: "walking_speed".to_owned(),
            subject: "passengers.speed".to_owned(),
            basis: AssumptionBasis::DocumentedEstimate,
            rationale: "source bracket used as an explicit scenario input".to_owned(),
            source_ids: vec!["trajectory_report".to_owned()],
        }],
        sources: vec![SensitivityReference {
            id: "trajectory_report".to_owned(),
            citation: "Fixture (2026)".to_owned(),
            url: "https://example.test/report".to_owned(),
            applicability: "source selection context".to_owned(),
            limitation: "does not calibrate the runtime".to_owned(),
            source_sha256: None,
            derived_report: None,
        }],
        source_attestations: Vec::new(),
        claim_boundary: "not predictive or operational".to_owned(),
    }
}

#[test]
fn manifest_requires_disclosed_assumptions_and_resolvable_sources() {
    assert!(validate_experiment_manifest(&manifest()).is_ok());

    let mut invalid = manifest();
    invalid.assumptions[0].source_ids = vec!["missing".to_owned()];
    invalid.scenario_source = "../scenario.chy".to_owned();
    assert!(validate_experiment_manifest(&invalid).is_err());

    let mut attested = manifest();
    attested.source_attestations = vec![ExperimentSourceAttestation::OsmLocalProjection {
        source_id: "trajectory_report".to_owned(),
        catalog_path: "catalog.json".to_owned(),
        data_root: "data".to_owned(),
        observation_report_path: "observation.json".to_owned(),
    }];
    assert!(validate_experiment_manifest(&attested).is_err());
    attested.schema_version = "0.2".to_owned();
    assert!(validate_experiment_manifest(&attested).is_err());
    attested.sources[0].derived_report = Some(SensitivityDerivedReport {
        path: "projection.json".to_owned(),
        sha256: "a".repeat(64),
    });
    assert!(validate_experiment_manifest(&attested).is_ok());

    let mut anchored = attested.clone();
    anchored.sources.push(SensitivityReference {
        id: "scenario_anchor".to_owned(),
        citation: "Fixture (2026)".to_owned(),
        url: "https://example.test/anchor".to_owned(),
        applicability: "retains one selected source point".to_owned(),
        limitation: "does not import a layout or calibrate the runtime".to_owned(),
        source_sha256: Some("b".repeat(64)),
        derived_report: Some(SensitivityDerivedReport {
            path: "anchor.json".to_owned(),
            sha256: "c".repeat(64),
        }),
    });
    anchored
        .source_attestations
        .push(ExperimentSourceAttestation::OsmScenarioAnchor {
            source_id: "scenario_anchor".to_owned(),
            projection_source_id: "trajectory_report".to_owned(),
            anchor_manifest_path: "anchors.json".to_owned(),
        });
    assert!(validate_experiment_manifest(&anchored).is_ok());

    anchored.source_attestations[1] = ExperimentSourceAttestation::OsmScenarioAnchor {
        source_id: "scenario_anchor".to_owned(),
        projection_source_id: "missing".to_owned(),
        anchor_manifest_path: "anchors.json".to_owned(),
    };
    assert!(validate_experiment_manifest(&anchored).is_err());
}
