use chiyoda_core::benchmark::DatasetRole;
use chiyoda_core::calibration::{
    lock_source, observe_file_bytes, observe_member, validate_eindhoven_catalog,
    verify_catalog_contents, verify_catalog_files, CalibrationError, FileObservation,
    MemberObservation, ObservationCounts,
};
use chiyoda_core::digest::hex_digest;
use chiyoda_core::evidence::{EvidenceArchiveMember, EvidenceCatalog, EvidenceFile, EvidencePurpose};
use std::io::{Cursor, Write};
use zip::write::SimpleFileOptions;
use zip::ZipWriter;

fn source_only_catalog() -> EvidenceCatalog {
    EvidenceCatalog {
        schema_version: "0.1".to_owned(),
        purpose: EvidencePurpose::UncalibratedReference,
        dataset_id: "eindhoven-centraal-platform-2024".to_owned(),
        title: "Source-only fixture".to_owned(),
        landing_page: "https://example.test/record".to_owned(),
        license: "CC-BY-4.0".to_owned(),
        redistributable: true,
        attribution: None,
        citation: "Fixture (2026)".to_owned(),
        files: vec![EvidenceFile {
            id: "source".to_owned(),
            role: None,
            source_url: "https://example.test/source".to_owned(),
            local_path: "missing.parquet".to_owned(),
            sha256: "a".repeat(64),
            size_bytes: 1,
            upstream_checksum: Some("md5:fixture".to_owned()),
            transformation: "retain source values".to_owned(),
        }],
        archive_members: Vec::new(),
        supported_primitives: "fixture only".to_owned(),
        exclusions: "empirical evaluation".to_owned(),
        split_rationale: None,
    }
}

#[test]
fn calibration_adapter_rejects_a_source_only_catalog_before_reading_files() {
    let catalog = source_only_catalog();
    let error = validate_eindhoven_catalog(&catalog).expect_err("source-only catalog must be rejected");
    assert!(
        matches!(error, CalibrationError::InvalidCatalog(message) if message.contains("empirical_evaluation"))
    );
}

fn trials_archive() -> Vec<u8> {
    let mut archive = ZipWriter::new(Cursor::new(Vec::new()));
    archive
        .start_file("trials/calibration.txt", SimpleFileOptions::default())
        .expect("starting calibration member");
    archive.write_all(b"calibration trial").expect("writing calibration member");
    archive
        .start_file("trials/held-out.txt", SimpleFileOptions::default())
        .expect("starting held-out member");
    archive.write_all(b"held-out trial").expect("writing held-out member");
    archive.finish().expect("finishing archive").into_inner()
}

fn archive_catalog(archive_bytes: &[u8]) -> EvidenceCatalog {
    let calibration = b"calibration trial";
    let held_out = b"held-out trial";
    EvidenceCatalog {
        schema_version: "0.1".to_owned(),
        purpose: EvidencePurpose::EmpiricalEvaluation,
        dataset_id: "archive-fixture".to_owned(),
        title: "Archive fixture".to_owned(),
        landing_page: "https://example.test/archive".to_owned(),
        license: "CC0-1.0".to_owned(),
        redistributable: true,
        attribution: None,
        citation: "Fixture (2026)".to_owned(),
        files: vec![EvidenceFile {
            id: "archive".to_owned(),
            role: None,
            source_url: "https://example.test/trials.zip".to_owned(),
            local_path: "trials.zip".to_owned(),
            sha256: hex_digest(archive_bytes),
            size_bytes: archive_bytes.len() as u64,
            upstream_checksum: None,
            transformation: "retain the publisher ZIP unchanged".to_owned(),
        }],
        archive_members: vec![
            EvidenceArchiveMember {
                id: "calibration".to_owned(),
                archive_file_id: "archive".to_owned(),
                member_path: "trials/calibration.txt".to_owned(),
                role: Some(DatasetRole::Calibration),
                sha256: hex_digest(calibration),
                size_bytes: calibration.len() as u64,
                transformation: "read the source trial unchanged".to_owned(),
            },
            EvidenceArchiveMember {
                id: "held-out".to_owned(),
                archive_file_id: "archive".to_owned(),
                member_path: "trials/held-out.txt".to_owned(),
                role: Some(DatasetRole::HeldOut),
                sha256: hex_digest(held_out),
                size_bytes: held_out.len() as u64,
                transformation: "read the source trial unchanged".to_owned(),
            },
        ],
        supported_primitives: "fixture horizontal avoidance".to_owned(),
        exclusions: "all other primitives".to_owned(),
        split_rationale: Some("named archive members are disjoint trials".to_owned()),
    }
}

#[test]
fn archive_member_locks_verify_the_published_split_members() {
    let archive_bytes = trials_archive();
    let catalog = archive_catalog(&archive_bytes);
    let files = vec![FileObservation::Content {
        size_bytes: archive_bytes.len() as u64,
        sha256: hex_digest(&archive_bytes),
    }];
    let members: Vec<MemberObservation> = catalog
        .archive_members
        .iter()
        .map(|member| observe_member(&archive_bytes, &member.member_path))
        .collect();
    verify_catalog_files(&catalog, "fixture", &files, &members).expect("archive and members lock");
}

#[test]
fn a_changed_member_is_reported_against_its_archive_path() {
    let archive_bytes = trials_archive();
    let mut catalog = archive_catalog(&archive_bytes);
    catalog.archive_members[1].sha256 = "0".repeat(64);
    let files = vec![FileObservation::Content {
        size_bytes: archive_bytes.len() as u64,
        sha256: hex_digest(&archive_bytes),
    }];
    let members: Vec<MemberObservation> = catalog
        .archive_members
        .iter()
        .map(|member| observe_member(&archive_bytes, &member.member_path))
        .collect();
    let error = verify_catalog_files(&catalog, "data", &files, &members).expect_err("tampered lock");
    match &error {
        CalibrationError::ArchiveMemberHashMismatch { archive_path, member_path, .. } => {
            assert_eq!(archive_path, "data/trials.zip");
            assert_eq!(member_path, "trials/held-out.txt");
        }
        other => panic!("unexpected error {other:?}"),
    }
    assert!(error.to_text().starts_with("data/trials.zip:trials/held-out.txt: SHA-256 mismatch; expected 0000"));
}

#[test]
fn an_invalid_catalog_is_refused_before_any_lock_is_checked() {
    let catalog = source_only_catalog();
    let mut broken = catalog.clone();
    broken.files[0].sha256 = "short".to_owned();
    let files = vec![FileObservation::Unreadable("not read".to_owned())];
    let error = verify_catalog_files(&broken, "data", &files, &Vec::new()).expect_err("invalid");
    assert!(matches!(error, CalibrationError::InvalidCatalog(message)
        if message == "files[0].sha256: must be a SHA-256 hexadecimal digest"));
    let error = verify_catalog_files(&catalog, "data", &files, &Vec::new()).expect_err("unreadable");
    assert_eq!(error.to_text(), "cannot read data/missing.parquet: not read");
}

#[test]
fn source_locks_compare_size_first_and_hash_without_case() {
    let expected = "AB".repeat(32);
    let lower = FileObservation::Content { size_bytes: 3, sha256: "ab".repeat(32) };
    assert!(lock_source("x", 3, &expected, &lower).is_ok());
    let error = lock_source("x", 4, &expected, &lower).expect_err("size");
    assert_eq!(error.to_text(), "x: expected 4 bytes, found 3");
    let other = FileObservation::Content { size_bytes: 3, sha256: "cd".repeat(32) };
    assert!(matches!(lock_source("x", 3, &expected, &other), Err(CalibrationError::HashMismatch { .. })));
}

#[test]
fn eindhoven_adapter_requires_its_own_dataset() {
    let archive_bytes = trials_archive();
    let catalog = archive_catalog(&archive_bytes);
    let error = validate_eindhoven_catalog(&catalog).expect_err("other dataset");
    assert!(matches!(error, CalibrationError::InvalidCatalog(message)
        if message == "the Eindhoven adapter requires dataset_id `eindhoven-centraal-platform-2024`"));
}

#[test]
fn observation_counts_add_field_by_field() {
    let mut total = ObservationCounts::default();
    let part = ObservationCounts {
        rows: 4,
        usable_steps: 1,
        first_observations: 1,
        non_positive_time_steps: 0,
        gaps_over_limit: 1,
        speeds_over_limit: 1,
    };
    total.add(&part);
    total.add(&part);
    assert_eq!(total.rows, 8);
    assert_eq!(total.usable_steps, 2);
    assert_eq!(total.gaps_over_limit, 2);
    assert_eq!(total.non_positive_time_steps, 0);
}

#[test]
fn calibration_errors_render_their_messages() {
    let error = CalibrationError::TimestampOrder { path: "p".to_owned(), previous: 5, actual: -3 };
    assert_eq!(
        error.to_text(),
        "p: timestamps must be non-decreasing for the free-walking isolation screen; -3 followed 5"
    );
    let missing = CalibrationError::ArchiveMemberMissing {
        archive_path: "a.zip".to_owned(),
        member_path: "m".to_owned(),
    };
    assert_eq!(missing.to_text(), "a.zip: required archive member `m` is missing");
}

#[test]
fn archive_members_are_read_by_name() {
    let archive_bytes = trials_archive();
    match observe_member(&archive_bytes, "trials/held-out.txt") {
        MemberObservation::Content { size_bytes, sha256 } => {
            assert_eq!(size_bytes, 14);
            assert_eq!(sha256, hex_digest(b"held-out trial"));
        }
        other => panic!("unexpected observation {other:?}"),
    }
    assert!(matches!(observe_member(&archive_bytes, "trials/absent.txt"), MemberObservation::Missing));
    assert!(matches!(observe_member(b"not a zip archive", "trials/held-out.txt"), MemberObservation::InvalidArchive(_)));
}

#[test]
fn file_bytes_are_observed_by_length_and_digest() {
    match observe_file_bytes(b"abc") {
        FileObservation::Content { size_bytes, sha256 } => {
            assert_eq!(size_bytes, 3);
            assert_eq!(sha256, "ba7816bf8f01cfea414140de5dae2223b00361a396177a9cb410ff61f20015ad");
        }
        other => panic!("unexpected observation {other:?}"),
    }
}

#[test]
fn catalog_contents_lock_the_bytes_read() {
    let archive_bytes = trials_archive();
    let mut catalog = archive_catalog(&archive_bytes);
    let contents = vec![Ok(archive_bytes.clone())];
    verify_catalog_contents(&catalog, "data", &contents).expect("the bytes match their locks");
    catalog.files[0].sha256 = catalog.files[0].sha256.to_uppercase();
    verify_catalog_contents(&catalog, "data", &contents).expect("digests compare without case");
    let mut shorter = archive_bytes.clone();
    shorter.pop();
    let error = verify_catalog_contents(&catalog, "data", &vec![Ok(shorter)]).expect_err("one byte short");
    assert!(matches!(error, CalibrationError::SizeMismatch { .. }));
    let error = verify_catalog_contents(&catalog, "data", &vec![Err("gone".to_owned())]).expect_err("unreadable");
    assert_eq!(error.to_text(), "cannot read data/trials.zip: gone");
    catalog.archive_members[0].size_bytes = 99;
    let error = verify_catalog_contents(&catalog, "data", &contents).expect_err("member size");
    assert!(matches!(error, CalibrationError::ArchiveMemberSizeMismatch { expected: 99, actual: 17, .. }));
}

#[test]
fn an_unreadable_member_is_checked_for_size_first() {
    let archive_bytes = trials_archive();
    let catalog = archive_catalog(&archive_bytes);
    let files = vec![FileObservation::Content {
        size_bytes: archive_bytes.len() as u64,
        sha256: hex_digest(&archive_bytes),
    }];
    let wrong_size = vec![
        observe_member(&archive_bytes, "trials/calibration.txt"),
        MemberObservation::EntryUnreadable { size_bytes: 99, message: "corrupt".to_owned() },
    ];
    let error = verify_catalog_files(&catalog, "data", &files, &wrong_size).expect_err("size first");
    assert!(matches!(error, CalibrationError::ArchiveMemberSizeMismatch { expected: 14, actual: 99, .. }));
    let right_size = vec![
        observe_member(&archive_bytes, "trials/calibration.txt"),
        MemberObservation::EntryUnreadable { size_bytes: 14, message: "corrupt".to_owned() },
    ];
    let error = verify_catalog_files(&catalog, "data", &files, &right_size).expect_err("then the read");
    assert_eq!(error.to_text(), "cannot read data/trials.zip: corrupt");
}

#[test]
fn a_corrupt_member_keeps_its_recorded_size() {
    let mut archive = ZipWriter::new(Cursor::new(Vec::new()));
    let stored = SimpleFileOptions::default().compression_method(zip::CompressionMethod::Stored);
    archive.start_file("trials/one.txt", stored).expect("starting member");
    archive.write_all(b"unchanged trial").expect("writing member");
    let mut bytes = archive.finish().expect("finishing archive").into_inner();
    let at = bytes
        .windows(b"unchanged trial".len())
        .position(|w| w == b"unchanged trial")
        .expect("stored content is in the archive");
    bytes[at] = b'X';
    match observe_member(&bytes, "trials/one.txt") {
        MemberObservation::EntryUnreadable { size_bytes, .. } => assert_eq!(size_bytes, 15),
        other => panic!("unexpected observation {other:?}"),
    }
}
