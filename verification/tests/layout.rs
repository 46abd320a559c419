use chiyoda_core::digest::hex_digest;
use chiyoda_core::evidence::{EvidenceCatalog, EvidenceFile, EvidencePurpose};
use chiyoda_core::layout::{
    classify, increment_categories, insert_tag, is_osm_xml_path, limits_from_report,
    openstreetmap_layout_source, relevant_tags, validate_limits,
    validate_projection_source_report, verify_openstreetmap_layout_catalog_contract,
    OsmInspectionLimits, OsmInspectionLimitsReport, OsmLayoutCounts, OsmLayoutError,
    OsmObservationSchema,
};

fn catalog(file: &str, bytes: &[u8]) -> EvidenceCatalog {
    EvidenceCatalog {
        schema_version: "0.1".to_owned(),
        purpose: EvidencePurpose::UncalibratedReference,
        dataset_id: "fixture-openstreetmap-layout".to_owned(),
        title: "fixture OSM layout".to_owned(),
        landing_page: "https://www.openstreetmap.org/".to_owned(),
        license: "ODbL-1.0".to_owned(),
        redistributable: true,
        attribution: Some("© OpenStreetMap contributors".to_owned()),
        citation: "OpenStreetMap contributors".to_owned(),
        files: vec![EvidenceFile {
            id: "extract".to_owned(),
            role: None,
            source_url: "https://example.test/station.osm".to_owned(),
            local_path: file.to_owned(),
            sha256: hex_digest(bytes),
            size_bytes: bytes.len() as u64,
            upstream_checksum: None,
            transformation: "inspect OSM XML as geographic map observations only".to_owned(),
        }],
        archive_members: Vec::new(),
        supported_primitives: "Mapped station, entrance, pedestrian-way, step, elevator, platform, building, and indoor tags only.".to_owned(),
        exclusions: "No geometry, elevation, capacity, connectivity, or behavioral inference.".to_owned(),
        split_rationale: None,
    }
}

#[test]
fn inspection_requires_contributor_attribution() {
    let xml = br#"<osm version="0.6"/>"#;
    let mut source_catalog = catalog("station.osm", xml);
    source_catalog.attribution = Some("map source".to_owned());
    let error = openstreetmap_layout_source(&source_catalog, b"{}")
        .expect_err("OSM attribution must be explicit");
    assert!(matches!(error, OsmLayoutError::MissingOpenStreetMapAttribution));
}

#[test]
fn catalog_contract_rejects_source_metadata_that_does_not_match_the_report() {
    let xml = br#"<osm version="0.6">
  <node id="1" lat="1.3" lon="103.8"><tag k="entrance" v="yes"/></node>
</osm>"#;
    let serialized = b"{\"dataset_id\":\"fixture-openstreetmap-layout\"}";
    let report_source = openstreetmap_layout_source(&catalog("station.osm", xml), serialized)
        .expect("accepted catalog");
    assert_eq!(report_source.catalog_sha256, hex_digest(serialized));
    assert_eq!(report_source.size_bytes, xml.len() as u64);
    assert!(verify_openstreetmap_layout_catalog_contract(&catalog("station.osm", xml), serialized, &report_source).is_ok());
    let mut mismatched_catalog = catalog("station.osm", xml);
    mismatched_catalog.files[0].source_url = "https://example.test/other.osm".to_owned();
    assert!(matches!(
        verify_openstreetmap_layout_catalog_contract(&mismatched_catalog, serialized, &report_source),
        Err(OsmLayoutError::CatalogReportSourceMismatch)
    ));
}

#[test]
fn only_osm_or_xml_extracts_are_inspected() {
    assert!(is_osm_xml_path("extract/station.OSM"));
    assert!(is_osm_xml_path("station.xml"));
    assert!(!is_osm_xml_path("station.pbf"));
    assert!(!is_osm_xml_path(".osm"));
    let mut catalog = catalog("station.osm", b"<osm/>");
    catalog.files[0].local_path = "station.pbf".to_owned();
    let error = openstreetmap_layout_source(&catalog, b"{}").expect_err("pbf");
    assert_eq!(error.to_text(), "layout inspection accepts a `.osm` or `.xml` source file, found `station.pbf`");
}

#[test]
fn limits_must_be_positive_and_round_trip_through_a_report() {
    let limits = OsmInspectionLimits::default();
    assert!(validate_limits(limits).is_ok());
    let report = OsmInspectionLimitsReport::from(limits);
    assert_eq!(report.max_nodes, 250_000);
    assert_eq!(limits_from_report(&report).expect("fits"), limits);
    let zero = OsmInspectionLimits { max_ways: 0, ..limits };
    let error = validate_limits(zero).expect_err("zero");
    assert_eq!(error.to_text(), "OSM inspection bound `max_ways` must be non-zero");
}

#[test]
fn schema_versions_name_their_report_forms() {
    assert_eq!(OsmObservationSchema::from_version("0.2").expect("known"), OsmObservationSchema::WayNodeSequences);
    assert_eq!(OsmObservationSchema::LegacyBounds.version(), "0.1");
    let error = OsmObservationSchema::from_version("0.3").expect_err("unknown");
    assert_eq!(error.to_text(), "unsupported OSM source-observation report schema `0.3`");
}

#[test]
fn tags_are_bounded_unique_and_classified() {
    let limits = OsmInspectionLimits { max_tags_per_object: 3, ..OsmInspectionLimits::default() };
    let mut tags = Vec::new();
    let mut count = 0usize;
    insert_tag(&mut tags, &mut count, 7, "way", "highway".to_owned(), "steps".to_owned(), limits).expect("first");
    insert_tag(&mut tags, &mut count, 7, "way", "indoor".to_owned(), "corridor".to_owned(), limits).expect("second");
    let error = insert_tag(&mut tags, &mut count, 7, "way", "highway".to_owned(), "footway".to_owned(), limits)
        .expect_err("duplicate");
    assert_eq!(error.to_text(), "duplicate `highway` tag on OSM way `7`");
    let error = insert_tag(&mut tags, &mut count, 7, "way", "name".to_owned(), "x".to_owned(), limits)
        .expect_err("bound");
    assert_eq!(error.to_text(), "OSM inspection exceeded its `max_tags_per_object` bound of 3");
    tags.push(("surface".to_owned(), "paved".to_owned()));
    assert_eq!(classify(&tags), Some(vec!["indoor_area".to_owned(), "steps".to_owned()]));
    assert_eq!(
        relevant_tags(&tags),
        vec![("highway".to_owned(), "steps".to_owned()), ("indoor".to_owned(), "corridor".to_owned())]
    );
    let none = vec![("building".to_owned(), "no".to_owned())];
    assert_eq!(classify(&none), None);
    let mut counts = OsmLayoutCounts::default();
    increment_categories(&mut counts, &vec!["indoor_area".to_owned(), "steps".to_owned()]);
    increment_categories(&mut counts, &vec!["steps".to_owned()]);
    assert_eq!(counts.selected_features_by_category.steps, 2);
    assert_eq!(counts.selected_features_by_category.indoor_area, 1);
    assert_eq!(counts.selected_features_by_category.building, 0);
}

#[test]
fn projection_needs_an_unmodified_source_observation() {
    let reference = "WGS84 geographic latitude/longitude copied from the OSM XML; this adapter does not project coordinates into scenario metres or infer elevations.";
    assert!(validate_projection_source_report("0.2", "source_observation_only", reference, "ODbL-1.0", "© OpenStreetMap contributors").is_ok());
    let error = validate_projection_source_report("0.2", "edited", reference, "ODbL-1.0", "x").expect_err("status");
    assert_eq!(
        error.to_text(),
        "local projection requires an OSM source-observation report with `status` equal to `source_observation_only`, found `edited`"
    );
}
