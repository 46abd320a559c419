//! The message of a rejected declaration line: each check of the grammar, in
//! the order the parser makes it, either passes (`None`) or names what is
//! wrong (`Some(message)`), and a line is reported with its first failure.

use vstd::prelude::*;
use crate::literal::{bool_literal, is_float_literal};
use crate::model::{connector_kind_word, ConnectorKind, InformationSource};
use crate::syntax::{
    availability, connector_kind_of, ends_with, information_source_of, milliseconds, u32_ok,
    speed_shift, u64_ok, without_suffix, AgentOptionIndices,
};
use crate::text::decimal;

verus! {

/// `a`'s failure if it has one, else `b`'s.
pub open spec fn first_failure(a: Option<Seq<char>>, b: Option<Seq<char>>) -> Option<Seq<char>> {
    if a is Some {
        a
    } else {
        b
    }
}

/// A failure exactly when `failed`.
pub open spec fn failure_if(failed: bool, message: Seq<char>) -> Option<Seq<char>> {
    if failed {
        Some(message)
    } else {
        None
    }
}

/// The token at `index` must exist.
pub open spec fn required_failure(tv: Seq<Seq<char>>, index: int, label: Seq<char>) -> Option<Seq<char>> {
    failure_if(index >= tv.len(), "missing "@ + label)
}

/// The token at `index` must be the word `expected`.
pub open spec fn expect_failure(tv: Seq<Seq<char>>, index: int, expected: Seq<char>) -> Option<Seq<char>> {
    if index >= tv.len() {
        Some("missing "@ + expected)
    } else {
        failure_if(tv[index] != expected, "expected `"@ + expected + "`, found `"@ + tv[index] + "`"@)
    }
}

/// At least `minimum` tokens.
pub open spec fn count_failure(tv: Seq<Seq<char>>, minimum: nat) -> Option<Seq<char>> {
    failure_if(
        tv.len() < minimum,
        "expected at least "@ + decimal(minimum) + " tokens, found "@ + decimal(tv.len()),
    )
}

/// Exactly `expected` tokens.
pub open spec fn exact_count_failure(tv: Seq<Seq<char>>, expected: nat) -> Option<Seq<char>> {
    failure_if(
        tv.len() != expected,
        "expected "@ + decimal(expected) + " tokens, found "@ + decimal(tv.len()),
    )
}

/// A single declaration may not come twice.
pub open spec fn duplicate_failure(duplicate: bool, name: Seq<char>) -> Option<Seq<char>> {
    failure_if(duplicate, "duplicate `"@ + name + "` declaration"@)
}

/// A number followed by the unit `suffix`.
pub open spec fn unit_failure(value: Seq<char>, suffix: Seq<char>, label: Seq<char>) -> Option<Seq<char>> {
    if !ends_with(value, suffix) {
        Some(label + " `"@ + value + "` must use `"@ + suffix + "` units"@)
    } else {
        failure_if(
            !is_float_literal(without_suffix(value, suffix)),
            "invalid "@ + label + " `"@ + without_suffix(value, suffix) + "`"@,
        )
    }
}

pub open spec fn length_failure(value: Seq<char>) -> Option<Seq<char>> {
    unit_failure(value, "m"@, "length"@)
}

pub open spec fn speed_failure(value: Seq<char>) -> Option<Seq<char>> {
    unit_failure(value, "m/s"@, "speed"@)
}

pub open spec fn rate_failure(value: Seq<char>) -> Option<Seq<char>> {
    unit_failure(value, "/s"@, "rate"@)
}

/// A number of milliseconds (`ms`) or of seconds (`s`).
pub open spec fn duration_failure(value: Seq<char>) -> Option<Seq<char>> {
    if ends_with(value, milliseconds()) {
        failure_if(
            !is_float_literal(without_suffix(value, milliseconds())),
            "invalid duration `"@ + without_suffix(value, milliseconds()) + "`"@,
        )
    } else {
        unit_failure(value, "s"@, "duration"@)
    }
}

/// A unitless number.
pub open spec fn plain_failure(value: Seq<char>, label: Seq<char>) -> Option<Seq<char>> {
    failure_if(!is_float_literal(value), "invalid "@ + label + " `"@ + value + "`"@)
}

pub open spec fn u32_failure(value: Seq<char>, label: Seq<char>) -> Option<Seq<char>> {
    failure_if(!u32_ok(value), "invalid "@ + label + " `"@ + value + "`"@)
}

pub open spec fn u64_failure(value: Seq<char>, label: Seq<char>) -> Option<Seq<char>> {
    failure_if(!u64_ok(value), "invalid "@ + label + " `"@ + value + "`"@)
}

pub open spec fn bool_failure(value: Seq<char>, label: Seq<char>) -> Option<Seq<char>> {
    failure_if(bool_literal(value) is None, "invalid "@ + label + " `"@ + value + "`"@)
}

/// Three lengths from `start`.
pub open spec fn point_failure(tv: Seq<Seq<char>>, start: int) -> Option<Seq<char>> {
    first_failure(
        length_failure(tv[start]),
        first_failure(length_failure(tv[start + 1]), length_failure(tv[start + 2])),
    )
}

pub open spec fn source_failure(value: Seq<char>) -> Option<Seq<char>> {
    failure_if(
        information_source_of(value) is None,
        "unknown information source `"@ + value + "`; use peer, official, signage, or staff"@,
    )
}

/// A source that may correct a message: any but `peer`.
pub open spec fn countermeasure_source_failure(value: Seq<char>) -> Option<Seq<char>> {
    first_failure(
        source_failure(value),
        failure_if(
            information_source_of(value) == Some(InformationSource::Peer),
            "countermeasure source must be official, signage, or staff"@,
        ),
    )
}

pub open spec fn availability_failure(state: Seq<char>) -> Option<Seq<char>> {
    failure_if(
        availability(state) is None,
        "unknown availability state `"@ + state + "`; use `open` or `closed`"@,
    )
}

pub open spec fn connector_kind_failure(value: Seq<char>) -> Option<Seq<char>> {
    failure_if(
        connector_kind_of(value) is None,
        "unknown connector kind `"@ + value + "`; use stair, ramp, escalator, or lift"@,
    )
}

/// A claim `KIND SUBJECT STATE`: the state first, then the kind.
pub open spec fn claim_failure(kind: Seq<char>, state: Seq<char>) -> Option<Seq<char>> {
    first_failure(
        availability_failure(state),
        failure_if(
            kind != "connector"@ && kind != "exit"@,
            "unsupported claim kind `"@ + kind + "`; use `connector` or `exit`"@,
        ),
    )
}

/// `capacity RATE` and `clearance LENGTH` clauses from `idx` on, each at
/// most once.
pub open spec fn connector_options_failure(
    tv: Seq<Seq<char>>,
    idx: int,
    capacity_seen: bool,
    clearance_seen: bool,
) -> Option<Seq<char>>
    decreases tv.len() - idx,
{
    if idx < 0 || idx >= tv.len() {
        None
    } else if idx + 1 >= tv.len() {
        Some("missing "@ + "connector option value"@)
    } else if tv[idx] == "capacity"@ {
        if capacity_seen {
            Some("connector capacity may be declared only once"@)
        } else {
            first_failure(
                rate_failure(tv[idx + 1]),
                connector_options_failure(tv, idx + 2, true, clearance_seen),
            )
        }
    } else if tv[idx] == "clearance"@ {
        if clearance_seen {
            Some("connector clearance may be declared only once"@)
        } else {
            first_failure(
                length_failure(tv[idx + 1]),
                connector_options_failure(tv, idx + 2, capacity_seen, true),
            )
        }
    } else {
        Some("expected `capacity` or `clearance`, found `"@ + tv[idx] + "`"@)
    }
}

/// A final `clearance LENGTH` clause at `start`, if any.
pub open spec fn final_clearance_failure(tv: Seq<Seq<char>>, start: int, subject: Seq<char>) -> Option<
    Seq<char>,
> {
    if start == tv.len() {
        None
    } else if tv[start] == "clearance"@ {
        if tv.len() - start == 2 {
            length_failure(tv[start + 1])
        } else {
            Some(subject + " clearance must be the final `clearance LENGTH` clause"@)
        }
    } else {
        Some("expected `clearance`, found `"@ + tv[start] + "`"@)
    }
}

/// A final `capacity RATE` clause of an exit, if any.
pub open spec fn exit_capacity_failure(tv: Seq<Seq<char>>) -> Option<Seq<char>> {
    if tv.len() == 10 {
        None
    } else if tv[10] == "capacity"@ {
        if tv.len() == 12 {
            rate_failure(tv[11])
        } else {
            Some("exit capacity must be the final `capacity RATE` clause"@)
        }
    } else {
        Some("expected `capacity`, found `"@ + tv[10] + "`"@)
    }
}

/// A final `sample KEY` clause after `base` tokens, if any.
pub open spec fn sampling_key_failure(tv: Seq<Seq<char>>, base: nat, declaration: Seq<char>) -> Option<
    Seq<char>,
> {
    if tv.len() == base {
        None
    } else if tv.len() - base == 2 {
        expect_failure(tv, base as int, "sample"@)
    } else {
        Some(
            "expected "@ + decimal(base) + " tokens or "@ + decimal(base)
                + " followed by `sample KEY` for "@ + declaration + ", found "@ + decimal(tv.len()),
        )
    }
}

/// Whether the exit at `idx` was already named as an alternative.
pub open spec fn alternative_seen(tv: Seq<Seq<char>>, st: AgentOptionIndices, idx: int) -> bool {
    exists|j: int| 0 <= j < st.4.len() && 0 <= st.4[j] < tv.len() && #[trigger] tv[st.4[j]] == tv[idx]
}

/// The clauses of an `agents` declaration from `idx` on, after the state
/// `st` of the clauses before.
#[verifier::opaque]
pub open spec fn agent_options_failure(
    tv: Seq<Seq<char>>,
    primary: Seq<char>,
    idx: int,
    st: AgentOptionIndices,
) -> Option<Seq<char>>
    decreases tv.len() - idx,
{
    if idx < 0 || idx >= tv.len() {
        None
    } else {
        let t = tv[idx];
        if t == "release"@ && st.0 is None {
            if idx + 1 >= tv.len() {
                Some("missing "@ + "agent release time"@)
            } else if duration_failure(tv[idx + 1]) is Some {
                duration_failure(tv[idx + 1])
            } else if idx + 2 < tv.len() && tv[idx + 2] == "every"@ {
                if idx + 3 >= tv.len() {
                    Some("missing "@ + "agent release interval"@)
                } else if duration_failure(tv[idx + 3]) is Some {
                    duration_failure(tv[idx + 3])
                } else if idx + 4 < tv.len() && tv[idx + 4] == "batch"@ {
                    if idx + 5 >= tv.len() {
                        Some("missing "@ + "agent release batch size"@)
                    } else if u32_failure(tv[idx + 5], "agent release batch size"@) is Some {
                        u32_failure(tv[idx + 5], "agent release batch size"@)
                    } else {
                        agent_options_failure(
                            tv,
                            primary,
                            idx + 6,
                            (Some(idx + 1), Some(idx + 3), Some(idx + 5), st.3, st.4, st.5),
                        )
                    }
                } else {
                    agent_options_failure(
                        tv,
                        primary,
                        idx + 4,
                        (Some(idx + 1), Some(idx + 3), st.2, st.3, st.4, st.5),
                    )
                }
            } else {
                agent_options_failure(tv, primary, idx + 2, (Some(idx + 1), st.1, st.2, st.3, st.4, st.5))
            }
        } else if t == "via"@ {
            if idx + 1 >= tv.len() {
                Some("missing "@ + "journey waypoint"@)
            } else {
                agent_options_failure(tv, primary, idx + 2, (st.0, st.1, st.2, st.3.push(idx + 1), st.4, st.5))
            }
        } else if t == "alternative"@ {
            if idx + 1 >= tv.len() {
                Some("missing "@ + "alternative exit"@)
            } else if tv[idx + 1] == primary || alternative_seen(tv, st, idx + 1) {
                Some("duplicate alternative exit `"@ + tv[idx + 1] + "`"@)
            } else {
                agent_options_failure(tv, primary, idx + 2, (st.0, st.1, st.2, st.3, st.4.push(idx + 1), st.5))
            }
        } else if t == "exclude"@ {
            if idx + 1 >= tv.len() {
                Some("missing "@ + "excluded connector kind"@)
            } else {
                match connector_kind_of(tv[idx + 1]) {
                    None => connector_kind_failure(tv[idx + 1]),
                    Some(k) => if st.5.contains(k) {
                        Some("duplicate `exclude "@ + connector_kind_word(k) + "` clause"@)
                    } else {
                        agent_options_failure(tv, primary, idx + 2, (st.0, st.1, st.2, st.3, st.4, st.5.push(k)))
                    },
                }
            }
        } else if t == "batch"@ {
            Some("`batch` requires `release DURATION every DURATION`"@)
        } else if t == "release"@ {
            Some("duplicate `release` clause"@)
        } else {
            Some("unknown agent option `"@ + t + "`"@)
        }
    }
}


/// One step of [`agent_options_failure`].
pub(crate) proof fn lemma_agent_options_failure_step(
    tv: Seq<Seq<char>>,
    primary: Seq<char>,
    idx: int,
    st: AgentOptionIndices,
)
    ensures
        agent_options_failure(tv, primary, idx, st) == {
            if idx < 0 || idx >= tv.len() {
                None
            } else {
                let t = tv[idx];
                if t == "release"@ && st.0 is None {
                    if idx + 1 >= tv.len() {
                        Some("missing "@ + "agent release time"@)
                    } else if duration_failure(tv[idx + 1]) is Some {
                        duration_failure(tv[idx + 1])
                    } else if idx + 2 < tv.len() && tv[idx + 2] == "every"@ {
                        if idx + 3 >= tv.len() {
                            Some("missing "@ + "agent release interval"@)
                        } else if duration_failure(tv[idx + 3]) is Some {
                            duration_failure(tv[idx + 3])
                        } else if idx + 4 < tv.len() && tv[idx + 4] == "batch"@ {
                            if idx + 5 >= tv.len() {
                                Some("missing "@ + "agent release batch size"@)
                            } else if u32_failure(tv[idx + 5], "agent release batch size"@) is Some {
                                u32_failure(tv[idx + 5], "agent release batch size"@)
                            } else {
                                agent_options_failure(
                                    tv,
                                    primary,
                                    idx + 6,
                                    (Some(idx + 1), Some(idx + 3), Some(idx + 5), st.3, st.4, st.5),
                                )
                            }
                        } else {
                            agent_options_failure(
                                tv,
                                primary,
                                idx + 4,
                                (Some(idx + 1), Some(idx + 3), st.2, st.3, st.4, st.5),
                            )
                        }
                    } else {
                        agent_options_failure(tv, primary, idx + 2, (Some(idx + 1), st.1, st.2, st.3, st.4, st.5))
                    }
                } else if t == "via"@ {
                    if idx + 1 >= tv.len() {
                        Some("missing "@ + "journey waypoint"@)
                    } else {
                        agent_options_failure(tv, primary, idx + 2, (st.0, st.1, st.2, st.3.push(idx + 1), st.4, st.5))
                    }
                } else if t == "alternative"@ {
                    if idx + 1 >= tv.len() {
                        Some("missing "@ + "alternative exit"@)
                    } else if tv[idx + 1] == primary || alternative_seen(tv, st, idx + 1) {
                        Some("duplicate alternative exit `"@ + tv[idx + 1] + "`"@)
                    } else {
                        agent_options_failure(tv, primary, idx + 2, (st.0, st.1, st.2, st.3, st.4.push(idx + 1), st.5))
                    }
                } else if t == "exclude"@ {
                    if idx + 1 >= tv.len() {
                        Some("missing "@ + "excluded connector kind"@)
                    } else {
                        match connector_kind_of(tv[idx + 1]) {
                            None => connector_kind_failure(tv[idx + 1]),
                            Some(k) => if st.5.contains(k) {
                                Some("duplicate `exclude "@ + connector_kind_word(k) + "` clause"@)
                            } else {
                                agent_options_failure(tv, primary, idx + 2, (st.0, st.1, st.2, st.3, st.4, st.5.push(k)))
                            },
                        }
                    }
                } else if t == "batch"@ {
                    Some("`batch` requires `release DURATION every DURATION`"@)
                } else if t == "release"@ {
                    Some("duplicate `release` clause"@)
                } else {
                    Some("unknown agent option `"@ + t + "`"@)
                }
            }
        },
{
    reveal(agent_options_failure);
}

/// A waypoint's optional final `dwell DURATION` clause.
pub open spec fn dwell_failure(tv: Seq<Seq<char>>) -> Option<Seq<char>> {
    if tv.len() == 8 {
        None
    } else if tv[8] == "dwell"@ {
        if tv.len() == 10 {
            duration_failure(tv[9])
        } else {
            Some("waypoint dwell must be the final `dwell DURATION` clause"@)
        }
    } else {
        Some("expected `dwell`, found `"@ + tv[8] + "`"@)
    }
}

/// `SUBJECT_KIND SUBJECT open|closed time DURATION` after the keyword and id.
pub open spec fn state_change_failure(tv: Seq<Seq<char>>, subject_kind: Seq<char>) -> Option<Seq<char>> {
    first_failure(
        exact_count_failure(tv, 7),
        first_failure(
            expect_failure(tv, 2, subject_kind),
            first_failure(
                expect_failure(tv, 5, "time"@),
                first_failure(
                    availability_failure(tv[4]),
                    duration_failure(tv[6]),
                ),
            ),
        ),
    )
}

/// `SUBJECT_KIND SUBJECT capacity RATE time DURATION` after the keyword and id.
pub open spec fn capacity_change_failure(tv: Seq<Seq<char>>, subject_kind: Seq<char>) -> Option<Seq<char>> {
    first_failure(
        exact_count_failure(tv, 8),
        first_failure(
            expect_failure(tv, 2, subject_kind),
            first_failure(
                expect_failure(tv, 4, "capacity"@),
                first_failure(
                    expect_failure(tv, 6, "time"@),
                    first_failure(
                        rate_failure(tv[5]),
                        duration_failure(tv[7]),
                    ),
                ),
            ),
        ),
    )
}

/// The two ends shared by every connector.
pub open spec fn ends_failure(tv: Seq<Seq<char>>) -> Option<Seq<char>> {
    first_failure(
        expect_failure(tv, 2, "from"@),
        first_failure(
            expect_failure(tv, 4, "at"@),
            first_failure(
                expect_failure(tv, 8, "to"@),
                first_failure(
                    expect_failure(tv, 10, "at"@),
                    first_failure(
                        point_failure(tv, 5),
                        point_failure(tv, 11),
                    ),
                ),
            ),
        ),
    )
}

/// A rejected `surface` line.
pub open spec fn surface_failure(tv: Seq<Seq<char>>) -> Option<Seq<char>> {
    first_failure(
        exact_count_failure(tv, 9),
        first_failure(
            expect_failure(tv, 2, "at"@),
            first_failure(
                expect_failure(tv, 6, "size"@),
                first_failure(
                    point_failure(tv, 3),
                    first_failure(
                        length_failure(tv[7]),
                        length_failure(tv[8]),
                    ),
                ),
            ),
        ),
    )
}

/// A rejected `obstacle` line.
pub open spec fn obstacle_failure(tv: Seq<Seq<char>>) -> Option<Seq<char>> {
    first_failure(
        exact_count_failure(tv, 11),
        first_failure(
            expect_failure(tv, 2, "on"@),
            first_failure(
                expect_failure(tv, 4, "at"@),
                first_failure(
                    expect_failure(tv, 8, "size"@),
                    first_failure(
                        point_failure(tv, 5),
                        first_failure(
                            length_failure(tv[9]),
                            length_failure(tv[10]),
                        ),
                    ),
                ),
            ),
        ),
    )
}

/// A rejected `waypoint` line.
pub open spec fn waypoint_failure(tv: Seq<Seq<char>>) -> Option<Seq<char>> {
    first_failure(
        count_failure(tv, 8),
        first_failure(
            expect_failure(tv, 2, "on"@),
            first_failure(
                expect_failure(tv, 4, "at"@),
                first_failure(
                    dwell_failure(tv),
                    point_failure(tv, 5),
                ),
            ),
        ),
    )
}

/// A rejected `exit` line.
pub open spec fn exit_failure(tv: Seq<Seq<char>>) -> Option<Seq<char>> {
    first_failure(
        count_failure(tv, 10),
        first_failure(
            expect_failure(tv, 2, "on"@),
            first_failure(
                expect_failure(tv, 4, "at"@),
                first_failure(
                    expect_failure(tv, 8, "width"@),
                    first_failure(
                        exit_capacity_failure(tv),
                        first_failure(
                            point_failure(tv, 5),
                            length_failure(tv[9]),
                        ),
                    ),
                ),
            ),
        ),
    )
}

/// A rejected `stair` or `ramp` line.
pub open spec fn walkway_failure(tv: Seq<Seq<char>>) -> Option<Seq<char>> {
    first_failure(
        count_failure(tv, 16),
        first_failure(
            ends_failure(tv),
            first_failure(
                expect_failure(tv, 14, "width"@),
                first_failure(
                    connector_options_failure(tv, 16, false, false),
                    length_failure(tv[15]),
                ),
            ),
        ),
    )
}

/// A rejected `escalator` line.
pub open spec fn escalator_failure(tv: Seq<Seq<char>>) -> Option<Seq<char>> {
    first_failure(
        count_failure(tv, 18),
        first_failure(
            ends_failure(tv),
            first_failure(
                expect_failure(tv, 14, "width"@),
                first_failure(
                    expect_failure(tv, 16, "belt"@),
                    first_failure(
                        connector_options_failure(tv, 18, false, false),
                        first_failure(
                            length_failure(tv[15]),
                            speed_failure(tv[17]),
                        ),
                    ),
                ),
            ),
        ),
    )
}

/// A rejected `lift` line.
pub open spec fn lift_failure(tv: Seq<Seq<char>>) -> Option<Seq<char>> {
    first_failure(
        count_failure(tv, 21),
        first_failure(
            ends_failure(tv),
            first_failure(
                expect_failure(tv, 14, "cabin"@),
                first_failure(
                    expect_failure(tv, 17, "capacity"@),
                    first_failure(
                        expect_failure(tv, 19, "cycle"@),
                        first_failure(
                            length_failure(tv[15]),
                            first_failure(
                                length_failure(tv[16]),
                                first_failure(
                                    u32_failure(tv[18], "lift capacity"@),
                                    first_failure(
                                        duration_failure(tv[20]),
                                        final_clearance_failure(tv, 21, "lift"@),
                                    ),
                                ),
                            ),
                        ),
                    ),
                ),
            ),
        ),
    )
}

/// A rejected `gate` line.
pub open spec fn gate_failure(tv: Seq<Seq<char>>) -> Option<Seq<char>> {
    first_failure(
        exact_count_failure(tv, 14),
        first_failure(
            expect_failure(tv, 2, "on"@),
            first_failure(
                expect_failure(tv, 4, "at"@),
                first_failure(
                    expect_failure(tv, 8, "width"@),
                    first_failure(
                        expect_failure(tv, 10, "capacity"@),
                        first_failure(
                            expect_failure(tv, 12, "to"@),
                            first_failure(
                                point_failure(tv, 5),
                                first_failure(
                                    length_failure(tv[9]),
                                    rate_failure(tv[11]),
                                ),
                            ),
                        ),
                    ),
                ),
            ),
        ),
    )
}

/// A rejected `agents` line. A speed taken from a walking profile moves the
/// clauses after it one token on.
pub open spec fn agents_failure(tv: Seq<Seq<char>>) -> Option<Seq<char>> {
    let s = speed_shift(tv);
    first_failure(
        count_failure(tv, (18 + s) as nat),
        first_failure(
            agents_words_failure(tv, s),
            first_failure(
                agent_options_failure(tv, tv[11], 18 + s, (None, None, None, Seq::empty(), Seq::empty(), Seq::empty())),
                first_failure(
                    u32_failure(tv[3], "agent count"@),
                    first_failure(
                        point_failure(tv, 7),
                        first_failure(
                            if s == 1 {
                                None
                            } else {
                                speed_failure(tv[13])
                            },
                            first_failure(length_failure(tv[15 + s]), length_failure(tv[17 + s])),
                        ),
                    ),
                ),
            ),
        ),
    )
}

/// The keywords of an `agents` line, in order.
pub open spec fn agents_words_failure(tv: Seq<Seq<char>>, s: int) -> Option<Seq<char>> {
    first_failure(
        expect_failure(tv, 2, "count"@),
        first_failure(
            expect_failure(tv, 4, "on"@),
            first_failure(
                expect_failure(tv, 6, "at"@),
                first_failure(
                    expect_failure(tv, 10, "to"@),
                    first_failure(
                        expect_failure(tv, 12, "speed"@),
                        first_failure(
                            expect_failure(tv, 14 + s, "radius"@),
                            expect_failure(tv, 16 + s, "height"@),
                        ),
                    ),
                ),
            ),
        ),
    )
}

/// A rejected `walking-profile` line.
pub open spec fn walking_profile_failure(tv: Seq<Seq<char>>) -> Option<Seq<char>> {
    first_failure(
        exact_count_failure(tv, 11),
        first_failure(
            expect_failure(tv, 2, "horizontal-free-walking"@),
            first_failure(
                expect_failure(tv, 3, "speed"@),
                first_failure(
                    expect_failure(tv, 5, "catalog-sha256"@),
                    first_failure(
                        expect_failure(tv, 7, "calibration-profile-sha256"@),
                        first_failure(
                            expect_failure(tv, 9, "held-out-evaluation-sha256"@),
                            speed_failure(tv[4]),
                        ),
                    ),
                ),
            ),
        ),
    )
}

/// A rejected `message` line.
pub open spec fn message_failure(tv: Seq<Seq<char>>) -> Option<Seq<char>> {
    first_failure(
        count_failure(tv, 22),
        first_failure(
            sampling_key_failure(tv, 22, "message"@),
            first_failure(
                expect_failure(tv, 2, "source"@),
                first_failure(
                    expect_failure(tv, 4, "on"@),
                    first_failure(
                        expect_failure(tv, 6, "at"@),
                        first_failure(
                            expect_failure(tv, 10, "claim"@),
                            first_failure(
                                expect_failure(tv, 14, "truth"@),
                                first_failure(
                                    expect_failure(tv, 16, "time"@),
                                    first_failure(
                                        expect_failure(tv, 18, "reach"@),
                                        first_failure(
                                            expect_failure(tv, 20, "trust"@),
                                            first_failure(
                                                source_failure(tv[3]),
                                                first_failure(
                                                    point_failure(tv, 7),
                                                    first_failure(
                                                        claim_failure(tv[11], tv[13]),
                                                        first_failure(
                                                            bool_failure(tv[15], "message truth value"@),
                                                            first_failure(
                                                                duration_failure(tv[17]),
                                                                first_failure(
                                                                    length_failure(tv[19]),
                                                                    plain_failure(tv[21], "message trust"@),
                                                                ),
                                                            ),
                                                        ),
                                                    ),
                                                ),
                                            ),
                                        ),
                                    ),
                                ),
                            ),
                        ),
                    ),
                ),
            ),
        ),
    )
}

/// A rejected `countermeasure` line.
pub open spec fn countermeasure_failure(tv: Seq<Seq<char>>) -> Option<Seq<char>> {
    first_failure(
        count_failure(tv, 18),
        first_failure(
            sampling_key_failure(tv, 18, "countermeasure"@),
            first_failure(
                expect_failure(tv, 2, "corrects"@),
                first_failure(
                    expect_failure(tv, 4, "source"@),
                    first_failure(
                        expect_failure(tv, 6, "on"@),
                        first_failure(
                            expect_failure(tv, 8, "at"@),
                            first_failure(
                                expect_failure(tv, 12, "time"@),
                                first_failure(
                                    expect_failure(tv, 14, "reach"@),
                                    first_failure(
                                        expect_failure(tv, 16, "trust"@),
                                        first_failure(
                                            countermeasure_source_failure(tv[5]),
                                            first_failure(
                                                point_failure(tv, 9),
                                                first_failure(
                                                    duration_failure(tv[13]),
                                                    first_failure(
                                                        length_failure(tv[15]),
                                                        plain_failure(tv[17], "countermeasure trust"@),
                                                    ),
                                                ),
                                            ),
                                        ),
                                    ),
                                ),
                            ),
                        ),
                    ),
                ),
            ),
        ),
    )
}

/// The first failure of a declaration line, given which single declarations
/// came before; `None` exactly for an accepted line.
pub open spec fn declaration_failure(
    tv: Seq<Seq<char>>,
    have_name: bool,
    have_seed: bool,
    have_duration: bool,
    have_timestep: bool,
) -> Option<Seq<char>> {
    let k = tv[0];
    if k == "scenario"@ {
        first_failure(duplicate_failure(have_name, "scenario"@), exact_count_failure(tv, 2))
    } else if k == "seed"@ {
        first_failure(
            duplicate_failure(have_seed, "seed"@),
            first_failure(exact_count_failure(tv, 2), u64_failure(tv[1], "seed"@)),
        )
    } else if k == "duration"@ {
        first_failure(
            duplicate_failure(have_duration, "duration"@),
            first_failure(exact_count_failure(tv, 2), duration_failure(tv[1])),
        )
    } else if k == "timestep"@ {
        first_failure(
            duplicate_failure(have_timestep, "timestep"@),
            first_failure(exact_count_failure(tv, 2), duration_failure(tv[1])),
        )
    } else if k == "surface"@ {
        surface_failure(tv)
    } else if k == "obstacle"@ {
        obstacle_failure(tv)
    } else if k == "waypoint"@ {
        waypoint_failure(tv)
    } else if k == "exit"@ {
        exit_failure(tv)
    } else if k == "stair"@ || k == "ramp"@ {
        walkway_failure(tv)
    } else if k == "escalator"@ {
        escalator_failure(tv)
    } else if k == "lift"@ {
        lift_failure(tv)
    } else if k == "connector-state"@ {
        state_change_failure(tv, "connector"@)
    } else if k == "exit-state"@ {
        state_change_failure(tv, "exit"@)
    } else if k == "connector-capacity-state"@ {
        capacity_change_failure(tv, "connector"@)
    } else if k == "exit-capacity-state"@ {
        capacity_change_failure(tv, "exit"@)
    } else if k == "gate"@ {
        gate_failure(tv)
    } else if k == "gate-state"@ {
        state_change_failure(tv, "gate"@)
    } else if k == "gate-capacity-state"@ {
        capacity_change_failure(tv, "gate"@)
    } else if k == "agents"@ {
        agents_failure(tv)
    } else if k == "message"@ {
        message_failure(tv)
    } else if k == "countermeasure"@ {
        countermeasure_failure(tv)
    } else if k == "walking-profile"@ {
        walking_profile_failure(tv)
    } else {
        Some("unknown declaration `"@ + k + "`"@)
    }
}

} // verus!
