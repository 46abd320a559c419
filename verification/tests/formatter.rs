use chiyoda_core::formatter::{format_declaration, format_scenario};
use chiyoda_core::parser::parse;

const SOURCE: &str = "scenario \"demo hall\"\n\
seed 42\n\
duration 60s\n\
timestep 100ms\n\
exit north on concourse at (10m, 10m, 0m) width 2m capacity 1.5/s\n\
agents crowd count 10 on concourse at (5m, 5m, 0m) to north speed 1.3m/s radius 0.25m height 1.7m via w1 exclude lift\n\
waypoint w1 on concourse at (2m, 2m, 0m)\n\
surface concourse at (0m, 0m, 0m) size (20m, 10m)\n\
stair up from concourse at (1m, 1m, 0m) to mezzanine at (1m, 4m, 3m) width 1.2m clearance 2.1m capacity 0.8/s\n\
message m1 source official on concourse at (0m, 0m, 0m) claim exit north closed truth true time 5s reach 10m trust 0.5 sample k1\n";

#[test]
fn canonical_source_lists_each_kind_in_its_section() {
    let parsed = parse(SOURCE).expect("fixture parses");
    let formatted = format_scenario(&parsed);
    assert_eq!(
        formatted,
        "scenario \"demo hall\"\n\
seed 42\n\
duration 60s\n\
timestep 100ms\n\
surface concourse at (0m, 0m, 0m) size (20m, 10m)\n\
waypoint w1 on concourse at (2m, 2m, 0m) dwell 0s\n\
exit north on concourse at (10m, 10m, 0m) width 2m capacity 1.5/s\n\
stair up from concourse at (1m, 1m, 0m) to mezzanine at (1m, 4m, 3m) width 1.2m capacity 0.8/s clearance 2.1m\n\
agents crowd count 10 on concourse at (5m, 5m, 0m) to north speed 1.3m/s radius 0.25m height 1.7m via w1 exclude lift release 0s\n\
message m1 source official on concourse at (0m, 0m, 0m) claim exit north closed truth true time 5s reach 10m trust 0.5 sample k1\n"
    );
}

#[test]
fn formatting_canonical_source_again_changes_nothing() {
    let first = format_scenario(&parse(SOURCE).expect("fixture parses"));
    let second = format_scenario(&parse(&first).expect("canonical source parses"));
    assert_eq!(first, second);
}

#[test]
fn each_declaration_has_one_canonical_line() {
    let parsed = parse(SOURCE).expect("fixture parses");
    let lines: Vec<String> = parsed.declarations.iter().map(format_declaration).collect();
    assert!(lines.contains(&"waypoint w1 on concourse at (2m, 2m, 0m) dwell 0s".to_owned()));
    assert!(lines.contains(&"surface concourse at (0m, 0m, 0m) size (20m, 10m)".to_owned()));
}

#[test]
fn blank_and_comment_lines_change_nothing() {
    let plain = parse(SOURCE).expect("fixture parses");
    let noisy_source = SOURCE
        .replace("seed 42\n", "seed 42\n\n   # the fixture's seed\n\t\n")
        .replace("waypoint w1", "# a waypoint follows\nwaypoint w1");
    let noisy = parse(&noisy_source).expect("noisy fixture parses");
    assert_eq!(noisy.declarations.len(), plain.declarations.len());
    assert_eq!(format_scenario(&noisy), format_scenario(&plain));
}

#[test]
fn quoted_identifier_with_a_blank_is_written_bare() {
    let source = "scenario \"s\"\nseed 1\nduration 1s\ntimestep 1s\nsurface \"main hall\" at (0m, 0m, 0m) size (1m, 1m)\n";
    let parsed = parse(source).expect("quoted identifiers parse");
    let formatted = format_scenario(&parsed);
    assert!(formatted.contains("surface main hall at (0m, 0m, 0m) size (1m, 1m)\n"));
    assert!(parse(&formatted).is_err());
}

const TIMED_SOURCE: &str = "scenario \"timed\"\n\
seed 3\n\
duration 30s\n\
timestep 1s\n\
gate-capacity-state g1_slow gate g1 capacity 0.5/s time 10s\n\
agents crowd count 4 on hall at (1m, 1m, 0m) to out speed profile brisk radius 0.3m height 1.7m release 2s every 500ms batch 2\n\
gate-state g1_shut gate g1 closed time 20s\n\
walking-profile brisk horizontal-free-walking speed 1.25m/s catalog-sha256 aa calibration-profile-sha256 bb held-out-evaluation-sha256 cc\n\
connector-capacity-state c1_slow connector c1 capacity 0.2/s time 5s\n\
exit-capacity-state out_slow exit out capacity 1/s time 6s\n\
countermeasure fix corrects m1 source staff on hall at (0m, 0m, 0m) time 3s reach 5m trust 0.9 sample k2\n\
gate g1 on hall at (2m, 2m, 0m) width 1m capacity 1/s to out\n";

#[test]
fn every_declaration_and_clause_is_written() {
    let parsed = parse(TIMED_SOURCE).expect("timed fixture parses");
    let formatted = format_scenario(&parsed);
    assert_eq!(
        formatted,
        "scenario \"timed\"\n\
seed 3\n\
duration 30s\n\
timestep 1s\n\
walking-profile brisk horizontal-free-walking speed 1.25m/s catalog-sha256 aa calibration-profile-sha256 bb held-out-evaluation-sha256 cc\n\
connector-capacity-state c1_slow connector c1 capacity 0.2/s time 5s\n\
exit-capacity-state out_slow exit out capacity 1/s time 6s\n\
gate g1 on hall at (2m, 2m, 0m) width 1m capacity 1/s to out\n\
gate-state g1_shut gate g1 closed time 20s\n\
gate-capacity-state g1_slow gate g1 capacity 0.5/s time 10s\n\
agents crowd count 4 on hall at (1m, 1m, 0m) to out speed profile brisk radius 0.3m height 1.7m release 2s every 500ms batch 2\n\
countermeasure fix corrects m1 source staff on hall at (0m, 0m, 0m) time 3s reach 5m trust 0.9 sample k2\n"
    );
}

#[test]
fn formatted_timed_source_parses_to_the_same_text() {
    let first = format_scenario(&parse(TIMED_SOURCE).expect("timed fixture parses"));
    let reparsed = parse(&first).expect("canonical text parses");
    assert_eq!(reparsed.declarations.len(), parse(TIMED_SOURCE).unwrap().declarations.len());
    assert_eq!(format_scenario(&reparsed), first);
}
