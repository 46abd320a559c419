use chiyoda_core::model::{spawn_grid_columns, ConnectorKind, InformationSource, Proposition};
use chiyoda_core::parser::{parse_availability_open, parse_connector_kind, parse_source};

#[test]
fn connector_kinds_and_sources_read_back_their_words() {
    for kind in [ConnectorKind::Stair, ConnectorKind::Ramp, ConnectorKind::Escalator, ConnectorKind::Lift] {
        assert_eq!(parse_connector_kind(1, kind.as_str()).expect("known"), kind);
    }
    for source in [InformationSource::Peer, InformationSource::Official, InformationSource::Signage, InformationSource::Staff] {
        assert_eq!(parse_source(1, source.as_str()).expect("known"), source);
    }
    assert_eq!(parse_availability_open(1, "open").expect("open"), true);
    assert_eq!(parse_availability_open(1, "closed").expect("closed"), false);
    let error = parse_connector_kind(3, "ladder").expect_err("unknown");
    assert_eq!(error.message, "unknown connector kind `ladder`; use stair, ramp, escalator, or lift");
}

#[test]
fn spawn_grids_are_the_smallest_square_that_holds_the_group() {
    assert_eq!(spawn_grid_columns(0), 1);
    assert_eq!(spawn_grid_columns(1), 1);
    assert_eq!(spawn_grid_columns(2), 2);
    assert_eq!(spawn_grid_columns(9), 3);
    assert_eq!(spawn_grid_columns(10), 4);
}

#[test]
fn propositions_expose_their_subject() {
    let claim = Proposition::ConnectorAvailability { connector: "s1".to_owned(), open: false };
    assert_eq!(claim.subject_kind(), "connector");
    assert_eq!(claim.subject(), "s1");
    assert!(!claim.is_open());
}
