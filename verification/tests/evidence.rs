use chiyoda_core::benchmark::DatasetRole;
use chiyoda_core::evidence::{
    validate_catalog, EvidenceArchiveMember, EvidenceCatalog, EvidenceFile, EvidencePurpose,
};

fn catalog() -> EvidenceCatalog {
    let checksum = "a".repeat(64);
    EvidenceCatalog {
        schema_version: "0.1".to_owned(),
        purpose: EvidencePurpose::EmpiricalEvaluation,
        dataset_id: "station".to_owned(),
        title: "Station trajectories".to_owned(),
        landing_page: "https://example.test/record".to_owned(),
        license: "CC-BY-4.0".to_owned(),
        redistributable: true,
        attribution: None,
        citation: "Example (2026)".to_owned(),
        files: vec![
            EvidenceFile {
                id: "one".to_owned(),
                role: Some(DatasetRole::Calibration),
                source_url: "https://example.test/one".to_owned(),
                local_path: "one.parquet".to_owned(),
                sha256: checksum.clone(),
                size_bytes: 1,
                upstream_checksum: Some("md5:1234".to_owned()),
                transformation: "retain source values".to_owned(),
            },
            EvidenceFile {
                id: "two".to_owned(),
                role: Some(DatasetRole::HeldOut),
                source_url: "https://example.test/two".to_owned(),
                local_path: "two.parquet".to_owned(),
                sha256: checksum,
                size_bytes: 1,
                upstream_checksum: Some("md5:5678".to_owned()),
                transformation: "retain source values".to_owned(),
            },
        ],
        archive_members: Vec::new(),
        supported_primitives: "horizontal walking".to_owned(),
        exclusions: "all other primitives".to_owned(),
        split_rationale: Some("files are disjoint".to_owned()),
    }
}

#[test]
fn catalog_requires_a_safe_content_lock_and_two_way_split() {
    let valid = catalog();
    assert!(validate_catalog(&valid).is_ok());
    let mut invalid = valid;
    invalid.files[1].local_path = "../escape.parquet".to_owned();
    invalid.files[1].role = Some(DatasetRole::Calibration);
    assert!(validate_catalog(&invalid).is_err());
}

#[test]
fn source_only_catalog_locks_open_data_without_faking_a_split() {
    let checksum = "a".repeat(64);
    let catalog = EvidenceCatalog {
        schema_version: "0.1".to_owned(),
        purpose: EvidencePurpose::UncalibratedReference,
        dataset_id: "reference".to_owned(),
        title: "Reference trajectories".to_owned(),
        landing_page: "https://example.test/record".to_owned(),
        license: "CC-BY-4.0".to_owned(),
        redistributable: true,
        attribution: None,
        citation: "Example (2026)".to_owned(),
        files: vec![EvidenceFile {
            id: "source".to_owned(),
            role: None,
            source_url: "https://example.test/source".to_owned(),
            local_path: "source.csv".to_owned(),
            sha256: checksum,
            size_bytes: 1,
            upstream_checksum: None,
            transformation: "retain source values".to_owned(),
        }],
        archive_members: Vec::new(),
        supported_primitives: "descriptive trajectories".to_owned(),
        exclusions: "empirical evaluation".to_owned(),
        split_rationale: None,
    };
    assert!(validate_catalog(&catalog).is_ok());
}

#[test]
fn odbl_source_observation_requires_attribution_and_cannot_be_empirical() {
    let mut catalog = catalog();
    catalog.purpose = EvidencePurpose::UncalibratedReference;
    for source in &mut catalog.files {
        source.role = None;
    }
    catalog.split_rationale = None;
    catalog.license = "ODbL-1.0".to_owned();
    catalog.attribution = Some("© OpenStreetMap contributors".to_owned());
    assert!(validate_catalog(&catalog).is_ok());

    catalog.attribution = None;
    assert!(validate_catalog(&catalog).is_err());

    catalog.attribution = Some("© OpenStreetMap contributors".to_owned());
    catalog.purpose = EvidencePurpose::EmpiricalEvaluation;
    for source in &mut catalog.files {
        source.role = Some(DatasetRole::Calibration);
    }
    catalog.split_rationale = Some("fixture split".to_owned());
    assert!(validate_catalog(&catalog).is_err());
}

#[test]
fn archive_members_can_form_a_content_locked_empirical_split() {
    let mut catalog = catalog();
    catalog.license = "CC0-1.0".to_owned();
    catalog.files.truncate(1);
    catalog.files[0].id = "archive".to_owned();
    catalog.files[0].role = None;
    catalog.files[0].local_path = "trials.zip".to_owned();
    catalog.archive_members = vec![
        EvidenceArchiveMember {
            id: "trial-calibration".to_owned(),
            archive_file_id: "archive".to_owned(),
            member_path: "trials/one.txt".to_owned(),
            role: Some(DatasetRole::Calibration),
            sha256: "b".repeat(64),
            size_bytes: 1,
            transformation: "read source trajectory rows unchanged".to_owned(),
        },
        EvidenceArchiveMember {
            id: "trial-held-out".to_owned(),
            archive_file_id: "archive".to_owned(),
            member_path: "trials/two.txt".to_owned(),
            role: Some(DatasetRole::HeldOut),
            sha256: "c".repeat(64),
            size_bytes: 1,
            transformation: "read source trajectory rows unchanged".to_owned(),
        },
    ];

    assert!(validate_catalog(&catalog).is_ok());

    catalog.archive_members[1].member_path = "trials/one.txt".to_owned();
    assert!(validate_catalog(&catalog).is_err());
}

#[test]
fn every_catalog_problem_is_reported_with_its_field() {
    let mut invalid = catalog();
    invalid.files[1].local_path = "../escape.parquet".to_owned();
    invalid.files[1].sha256 = "xyz".to_owned();
    let errors = validate_catalog(&invalid).expect_err("two problems");
    let texts: Vec<String> = errors.iter().map(|e| e.to_text()).collect();
    assert!(texts.iter().any(|t| t.starts_with("files[1].local_path: ")));
    assert!(texts.iter().any(|t| t.starts_with("files[1].sha256: ")));
}

#[test]
fn an_archive_member_path_with_a_backslash_is_refused() {
    let mut catalog = catalog();
    catalog.files.truncate(1);
    catalog.files[0].role = None;
    catalog.files[0].local_path = "trials.zip".to_owned();
    catalog.purpose = EvidencePurpose::UncalibratedReference;
    catalog.split_rationale = None;
    catalog.archive_members = vec![EvidenceArchiveMember {
        id: "trial".to_owned(),
        archive_file_id: "one".to_owned(),
        member_path: "a\\b".to_owned(),
        role: None,
        sha256: "b".repeat(64),
        size_bytes: 1,
        transformation: "read source trajectory rows unchanged".to_owned(),
    }];
    let errors = validate_catalog(&catalog).expect_err("a backslash is no path separator here");
    let texts: Vec<String> = errors.iter().map(|e| e.to_text()).collect();
    assert!(texts
        .iter()
        .any(|t| t == "archive_members[0].member_path: must be a non-empty relative path without `.` or `..` components"));
    catalog.archive_members[0].member_path = "a/b".to_owned();
    let texts: Vec<String> = validate_catalog(&catalog)
        .err()
        .unwrap_or_default()
        .iter()
        .map(|e| e.to_text())
        .collect();
    assert!(!texts.iter().any(|t| t.contains("member_path")));
}
