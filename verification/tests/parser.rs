use chiyoda_core::lexer::tokenize;
use chiyoda_core::model::{ConnectorKind, InformationSource, Proposition};
use chiyoda_core::parser::{parse, parse_declaration, ParseError};
use chiyoda_core::syntax::{AgentSpeed, ConnectorDecl, Declaration};

const SOURCE: &str = "# station fixture\n\
scenario \"demo hall\"\n\
seed 42\n\
duration 60s\n\
timestep 100ms\n\
surface concourse at (0m, 0m, 0m) size (20m, 10m)\n\
exit north on concourse at (10m, 10m, 0m) width 2m capacity 1.5/s\n\
stair up from concourse at (1m, 1m, 0m) to mezzanine at (1m, 4m, 3m) width 1.2m clearance 2.1m capacity 0.8/s\n\
agents crowd count 10 on concourse at (5m, 5m, 0m) to north speed 1.3m/s radius 0.25m height 1.7m release 0s every 2s batch 2 via w1 exclude lift exclude stair\n\
message m1 source official on concourse at (0m, 0m, 0m) claim exit north closed truth true time 5s reach 10m trust 0.5 sample k1\n";

fn tokens(line: &str) -> Vec<String> {
    tokenize(line).expect("tokenizes")
}

#[test]
fn a_complete_source_parses_into_its_declarations() {
    let parsed = parse(SOURCE).expect("fixture parses");
    assert_eq!(parsed.name, "demo hall");
    assert_eq!(parsed.seed, 42);
    assert_eq!(parsed.duration.number, "60");
    assert!(!parsed.duration.milli);
    assert_eq!(parsed.timestep.number, "100");
    assert!(parsed.timestep.milli);
    assert_eq!(parsed.declarations.len(), 9);
    match &parsed.declarations[5] {
        Declaration::Exit(exit) => {
            assert_eq!(exit.id, "north");
            assert_eq!(exit.width.number, "2");
            assert_eq!(exit.capacity.as_ref().map(|q| q.number.as_str()), Some("1.5"));
        }
        other => panic!("unexpected {other:?}"),
    }
    match &parsed.declarations[6] {
        Declaration::Connector(ConnectorDecl::Stair { ends, width, capacity, clearance }) => {
            assert_eq!(ends.to_surface, "mezzanine");
            assert_eq!(ends.to.z.number, "3");
            assert_eq!(width.number, "1.2");
            assert_eq!(capacity.as_ref().map(|q| q.number.as_str()), Some("0.8"));
            assert_eq!(clearance.as_ref().map(|q| q.number.as_str()), Some("2.1"));
        }
        other => panic!("unexpected {other:?}"),
    }
    match &parsed.declarations[7] {
        Declaration::Agents(group) => {
            assert_eq!(group.count, 10);
            assert_eq!(group.release_batch_size, Some(2));
            assert_eq!(group.release_interval.as_ref().map(|q| q.number.as_str()), Some("2"));
            assert_eq!(group.via, vec!["w1".to_owned()]);
            assert_eq!(group.excluded_connector_kinds, vec![ConnectorKind::Stair, ConnectorKind::Lift]);
        }
        other => panic!("unexpected {other:?}"),
    }
    match &parsed.declarations[8] {
        Declaration::Message(message) => {
            assert_eq!(message.source, InformationSource::Official);
            assert!(message.truthful);
            assert_eq!(message.sampling_key.as_deref(), Some("k1"));
            assert!(matches!(&message.claim,
                Proposition::ExitAvailability { exit, open } if exit == "north" && !*open));
        }
        other => panic!("unexpected {other:?}"),
    }
}

#[test]
fn a_missing_required_declaration_is_reported_at_the_last_line() {
    let error = parse("scenario s\nduration 1s\ntimestep 1s\n").expect_err("no seed");
    assert_eq!(error.line, 3);
    assert_eq!(error.message, "missing `seed` declaration");
    assert_eq!(error.to_text(), "line 3: missing `seed` declaration");
    let empty = parse("").expect_err("nothing declared");
    assert_eq!(empty.line, 1);
    assert_eq!(empty.message, "missing `scenario` declaration");
}

#[test]
fn the_first_rejected_line_is_reported() {
    let error = parse("scenario a\nscenario b\nbogus\n").expect_err("duplicate");
    assert_eq!(error.line, 2);
    assert_eq!(error.message, "duplicate `scenario` declaration");
    let quote = parse("scenario a\nseed 1\nsurface \"open\n").expect_err("quote");
    assert_eq!(quote, ParseError { line: 3, message: "unterminated quoted string".to_owned() });
    let unknown = parse("scenario a\nteleport x\n").expect_err("unknown");
    assert_eq!((unknown.line, unknown.message.as_str()), (2, "unknown declaration `teleport`"));
}

#[test]
fn units_are_required_and_checked() {
    let error = parse_declaration(4, &tokens("duration 60"), false, false, false, false)
        .expect_err("no unit");
    assert_eq!(error.line, 4);
    assert_eq!(error.message, "duration `60` must use `s` units");
    let error = parse_declaration(1, &tokens("surface s at (0m, 0m, 0m) size (abcm, 1m)"), false, false, false, false)
        .expect_err("bad number");
    assert_eq!(error.message, "invalid length `abc`");
    assert!(parse_declaration(1, &tokens("duration 1e3s"), false, false, false, false).is_ok());
    assert!(parse_declaration(1, &tokens("duration infs"), false, false, false, false).is_ok());
}

#[test]
fn agent_options_reject_repeated_clauses() {
    let base = "agents a count 1 on s at (0m, 0m, 0m) to e speed 1m/s radius 0.2m height 1.7m";
    assert!(parse_declaration(1, &tokens(base), true, true, true, true).is_ok());
    let twice = format!("{base} exclude lift exclude lift");
    let error = parse_declaration(1, &tokens(&twice), true, true, true, true).expect_err("repeat");
    assert_eq!(error.message, "duplicate `exclude lift` clause");
    let same = format!("{base} alternative e");
    let error = parse_declaration(1, &tokens(&same), true, true, true, true).expect_err("primary");
    assert_eq!(error.message, "duplicate alternative exit `e`");
    let batch = format!("{base} batch 2");
    let error = parse_declaration(1, &tokens(&batch), true, true, true, true).expect_err("batch");
    assert_eq!(error.message, "`batch` requires `release DURATION every DURATION`");
}

#[test]
fn countermeasures_cannot_come_from_peers() {
    let line = "countermeasure c corrects m1 source peer on s at (0m, 0m, 0m) time 1s reach 2m trust 1";
    let error = parse_declaration(1, &tokens(line), true, true, true, true).expect_err("peer");
    assert_eq!(error.message, "countermeasure source must be official, signage, or staff");
    let line = "countermeasure c corrects m1 source staff on s at (0m, 0m, 0m) time 1s reach 2m trust 1";
    assert!(matches!(
        parse_declaration(1, &tokens(line), true, true, true, true),
        Ok(Declaration::Countermeasure(c)) if c.source == InformationSource::Staff && c.sampling_key.is_none()
    ));
}

#[test]
fn waypoint_dwell_must_be_final() {
    let line = "waypoint w on s at (0m, 0m, 0m) dwell 2s extra";
    let error = parse_declaration(9, &tokens(line), true, true, true, true).expect_err("not final");
    assert_eq!(error.message, "waypoint dwell must be the final `dwell DURATION` clause");
    let line = "waypoint w on s at (0m, 0m, 0m) dwell 250ms";
    match parse_declaration(9, &tokens(line), true, true, true, true) {
        Ok(Declaration::Waypoint(w)) => {
            let dwell = w.dwell.expect("dwell");
            assert_eq!(dwell.number, "250");
            assert!(dwell.milli);
        }
        other => panic!("unexpected {other:?}"),
    }
}

#[test]
fn tokens_split_at_delimiters_and_keep_quoted_text() {
    assert_eq!(tokenize("a (b, c) \"d e\"").expect("ok"), vec!["a", "b", "c", "d e"]);
    assert_eq!(tokenize("ab\"c\"").expect_err("mid-token quote"), "a quote must begin at a token boundary");
}

#[test]
fn each_rejected_line_names_its_first_failure() {
    let cases = [
        ("surface s at (0m, 0m) size (1m, 1m)", "expected 9 tokens, found 8"),
        ("surface s on (0m, 0m, 0m) size (1m, 1m)", "expected `at`, found `on`"),
        ("exit e on s at (0m, 0m, 0m)", "expected at least 10 tokens, found 8"),
        ("exit e on s at (0m, 0m, 0m) width 1m limit 2/s", "expected `capacity`, found `limit`"),
        ("exit e on s at (0m, 0m, 0m) width 1m capacity 2/s 3", "exit capacity must be the final `capacity RATE` clause"),
        (
            "stair a from s at (0m, 0m, 0m) to t at (0m, 1m, 1m) width 1m capacity 1/s capacity 2/s",
            "connector capacity may be declared only once",
        ),
        (
            "ramp a from s at (0m, 0m, 0m) to t at (0m, 1m, 1m) width 1m clearance",
            "missing connector option value",
        ),
        (
            "lift a from s at (0m, 0m, 0m) to t at (0m, 1m, 1m) cabin 1m 1m capacity many cycle 10s",
            "invalid lift capacity `many`",
        ),
        ("exit-state x exit e ajar time 1s", "unknown availability state `ajar`; use `open` or `closed`"),
        (
            "message m source rumor on s at (0m, 0m, 0m) claim exit e closed truth true time 1s reach 1m trust 1",
            "unknown information source `rumor`; use peer, official, signage, or staff",
        ),
        (
            "message m source peer on s at (0m, 0m, 0m) claim exit e closed truth true time 1s reach 1m trust 1 seed k",
            "expected `sample`, found `seed`",
        ),
        (
            "message m source peer on s at (0m, 0m, 0m) claim gate g closed truth true time 1s reach 1m trust 1",
            "unsupported claim kind `gate`; use `connector` or `exit`",
        ),
        (
            "agents a count 1 on s at (0m, 0m, 0m) to e speed 1m/s radius 0.2m height 1.7m release 1s every",
            "missing agent release interval",
        ),
        (
            "agents a count 1 on s at (0m, 0m, 0m) to e speed 1m/s radius 0.2m height 1.7m exclude tram",
            "unknown connector kind `tram`; use stair, ramp, escalator, or lift",
        ),
        ("seed 12x", "invalid seed `12x`"),
    ];
    for (line, message) in cases {
        let error = parse_declaration(7, &tokens(line), false, false, false, false)
            .expect_err(line);
        assert_eq!((error.line, error.message.as_str()), (7, message), "{line}");
    }
}

#[test]
fn agent_groups_list_their_exits_and_allowed_connectors() {
    let line = "agents a count 1 on s at (0m, 0m, 0m) to north speed 1m/s radius 0.2m height 1.7m alternative east alternative west exclude lift";
    let group = match parse_declaration(1, &tokens(line), true, true, true, true) {
        Ok(Declaration::Agents(group)) => group,
        other => panic!("unexpected {other:?}"),
    };
    assert_eq!(group.exit_candidates(), vec!["north", "east", "west"]);
    let lift = "lift up from s at (0m, 0m, 0m) to t at (0m, 0m, 4m) cabin 2m 2m capacity 12 cycle 30s";
    let stair = "stair st from s at (0m, 0m, 0m) to t at (0m, 3m, 4m) width 1.5m";
    let (lift, stair) = match (
        parse_declaration(2, &tokens(lift), true, true, true, true),
        parse_declaration(3, &tokens(stair), true, true, true, true),
    ) {
        (Ok(Declaration::Connector(lift)), Ok(Declaration::Connector(stair))) => (lift, stair),
        other => panic!("unexpected {other:?}"),
    };
    assert!(!group.allows_connector(&lift));
    assert!(group.allows_connector(&stair));
    assert!(lift.is_lift() && !stair.is_lift());
    assert_eq!(lift.kind(), ConnectorKind::Lift);
    assert_eq!(lift.capacity(), Some(12));
    assert_eq!(stair.capacity(), None);
    assert_eq!((stair.id(), stair.from_surface(), stair.to_surface()), ("st", "s", "t"));
}

const PROFILE_SOURCE: &str = "scenario \"embedded profile fixture\"\nseed 7\nduration 10s\ntimestep 1s\nwalking-profile eindhoven_free horizontal-free-walking speed 1.25m/s catalog-sha256 0000000000000000000000000000000000000000000000000000000000000001 calibration-profile-sha256 0000000000000000000000000000000000000000000000000000000000000002 held-out-evaluation-sha256 0000000000000000000000000000000000000000000000000000000000000003\nsurface platform at (0m, 0m, 0m) size (20m, 10m)\nexit street on platform at (18m, 5m, 0m) width 2m\nagents passengers count 1 on platform at (1m, 5m, 0m) to street speed profile eindhoven_free radius 0.3m height 1.7m\n";

#[test]
fn agents_take_their_speed_from_a_walking_profile() {
    let parsed = parse(PROFILE_SOURCE).expect("profile fixture parses");
    match &parsed.declarations[4] {
        Declaration::WalkingProfile(profile) => {
            assert_eq!(profile.id, "eindhoven_free");
            assert_eq!(profile.speed.number, "1.25");
            assert!(profile.held_out_evaluation_sha256.ends_with('3'));
        }
        other => panic!("unexpected {other:?}"),
    }
    match &parsed.declarations[7] {
        Declaration::Agents(group) => {
            assert!(matches!(&group.speed, AgentSpeed::Profile(id) if id == "eindhoven_free"));
            assert_eq!(group.radius.number, "0.3");
            let speed = parsed.agent_speed(group).expect("the profile is declared");
            assert_eq!(speed.number, "1.25");
            assert!(!speed.milli);
        }
        other => panic!("unexpected {other:?}"),
    }
}

#[test]
fn an_unknown_walking_profile_gives_no_speed() {
    let source = PROFILE_SOURCE.replace("speed profile eindhoven_free", "speed profile nobody");
    let parsed = parse(&source).expect("a profile reference parses on its own");
    match &parsed.declarations[7] {
        Declaration::Agents(group) => assert!(parsed.agent_speed(group).is_none()),
        other => panic!("unexpected {other:?}"),
    }
}

#[test]
fn walking_profile_lines_are_checked_word_by_word() {
    let base = "scenario \"s\"\nseed 1\nduration 1s\ntimestep 1s\n";
    let wrong_kind = format!("{base}walking-profile p stair-walking speed 1m/s catalog-sha256 a calibration-profile-sha256 b held-out-evaluation-sha256 c\n");
    let error = parse(&wrong_kind).expect_err("only the free-walking kind is known");
    assert_eq!(error.line, 5);
    assert_eq!(error.message, "expected `horizontal-free-walking`, found `stair-walking`");
    let bad_speed = format!("{base}walking-profile p horizontal-free-walking speed fast catalog-sha256 a calibration-profile-sha256 b held-out-evaluation-sha256 c\n");
    assert!(parse(&bad_speed).is_err());
    let short = format!("{base}walking-profile p horizontal-free-walking speed 1m/s\n");
    assert!(parse(&short).is_err());
    let short_agents = format!("{base}agents a count 1 on s at (0m, 0m, 0m) to e speed profile p radius 0.2m\n");
    let error = parse(&short_agents).expect_err("the profile moves the clauses one token on");
    assert_eq!(error.message, "expected at least 19 tokens, found 17");
}

#[test]
fn each_declaration_line_adds_one_declaration_in_order() {
    let header = "scenario \"s\"\nseed 1\nduration 1s\ntimestep 1s\n";
    let one = format!("{header}surface a at (0m, 0m, 0m) size (1m, 1m)\n");
    let two = format!("{one}# nothing here\n\nsurface b at (1m, 0m, 0m) size (1m, 1m)\n");
    let first = parse(&one).expect("one surface");
    let second = parse(&two).expect("two surfaces");
    assert_eq!(second.declarations.len(), first.declarations.len() + 1);
    assert!(matches!(&second.declarations[4], Declaration::Surface(s) if s.id == "a"));
    assert!(matches!(&second.declarations[5], Declaration::Surface(s) if s.id == "b"));
    let broken = format!("{two}surface c at\nsurface d at (2m, 0m, 0m) size (1m, 1m)\n");
    let error = parse(&broken).expect_err("the short line fails");
    assert_eq!(error.line, 9);
}
