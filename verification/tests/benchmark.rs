use chiyoda_core::benchmark::{
    validate_manifest, BenchmarkManifest, DatasetEvidence, DatasetRole, GeneratorRound,
};

fn dataset(id: &str, role: DatasetRole) -> DatasetEvidence {
    DatasetEvidence {
        id: id.to_owned(),
        role,
        source_url: "https://example.test/data".to_owned(),
        license: "CC-BY-4.0".to_owned(),
        sha256: "ab".repeat(32),
        redistributable: true,
        transformation: "retain source values".to_owned(),
    }
}

fn manifest() -> BenchmarkManifest {
    BenchmarkManifest {
        schema_version: "0.1".to_owned(),
        round_id: "round-1".to_owned(),
        generator: GeneratorRound {
            version: "0.1.0".to_owned(),
            public_fixture_seeds: vec![1, 2],
            evaluation_seed_commitment: "0".repeat(64),
            release_after_round: true,
        },
        datasets: vec![
            dataset("calibration", DatasetRole::Calibration),
            dataset("held-out", DatasetRole::HeldOut),
        ],
        claim_boundary: "synthetic fixtures only".to_owned(),
    }
}

fn texts(manifest: &BenchmarkManifest) -> Vec<String> {
    match validate_manifest(manifest) {
        Ok(()) => Vec::new(),
        Err(errors) => errors.iter().map(|e| e.to_text()).collect(),
    }
}

#[test]
fn a_complete_round_is_accepted() {
    assert!(validate_manifest(&manifest()).is_ok());
}

#[test]
fn a_round_needs_both_partitions() {
    let mut round = manifest();
    round.datasets.pop();
    assert_eq!(
        texts(&round),
        vec!["datasets: an empirical round requires at least one calibration and one held-out dataset"]
    );
}

#[test]
fn every_problem_is_reported_in_field_order() {
    let mut round = manifest();
    round.schema_version = "0.2".to_owned();
    round.round_id = "  ".to_owned();
    round.generator.version = String::new();
    round.generator.public_fixture_seeds.clear();
    round.generator.evaluation_seed_commitment = "xyz".to_owned();
    round.generator.release_after_round = false;
    round.datasets[1].redistributable = false;
    round.datasets[1].license = " ".to_owned();
    round.datasets[1].sha256 = "AB".repeat(31);
    round.claim_boundary = "\t".to_owned();
    assert_eq!(
        texts(&round),
        vec![
            "schema_version: must be `0.1`",
            "round_id: must not be empty",
            "generator.version: must not be empty",
            "generator.public_fixture_seeds: must not be empty",
            "generator.evaluation_seed_commitment: must be a SHA-256 hexadecimal commitment",
            "generator.release_after_round: must be true for a reproducible public round",
            "datasets[1]: id, URL, license, and transformation are required",
            "datasets[1]: must be redistributable",
            "datasets[1].sha256: must be a SHA-256 hexadecimal digest",
            "claim_boundary: must state evidence limitations",
        ]
    );
}

#[test]
fn upper_case_digests_are_hexadecimal() {
    let mut round = manifest();
    round.datasets[0].sha256 = "AB".repeat(32);
    assert!(validate_manifest(&round).is_ok());
}
