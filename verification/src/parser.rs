//! The parser of the line-oriented scenario language.
//!
//! Declarations are flat: one per line, with no nesting. A line is cut at its
//! first `#`, split into tokens, and its first token names the declaration.

use vstd::prelude::*;
use crate::lexer::{before_comment, source_lines, split_lines, string_views, strip_comment, tokenize_chars, tokens_of};
use crate::literal::{float_literal, parse_bool_literal, parse_u32_literal, parse_u64_literal};
use crate::model::{ConnectorKind, InformationSource, Proposition};
use crate::syntax::{
    message_ok, countermeasure_ok, MessageDecl, CountermeasureDecl, declaration_accepted,
    agent_options, agent_options_from, agents_ok, kinds_in_order, strings_at, AgentOptionIndices,
    AgentsDecl, declaration_is, surface_ok, obstacle_ok, waypoint_ok, exit_ok, walkway_ok, escalator_ok,
    lift_ok, state_change_ok, capacity_change_ok, gate_ok, CapacityChangeDecl, ConnectorDecl,
    ConnectorEnds, Declaration, ExitDecl, GateDecl, ObstacleDecl, StateChangeDecl, SurfaceDecl,
    WaypointDecl, AgentSpeed, WalkingProfileDecl, walking_profile_ok, speed_shift, ends_ok, ends_is, connector_options, connector_options_from, final_clearance, final_exit_capacity,
    quantity_option_is, sampling_key, string_option_is, availability, claim_is, claim_ok, connector_kind_of, duration_is, duration_ok, ends_with,
    information_source_of, length_is, length_ok, meters, meters_per_second, milliseconds,
    per_second, plain_is, point_is, point_ok, rate_is, rate_ok, seconds, speed_is, speed_ok,
    u32_ok, u64_ok, unit_is, unit_ok, without_suffix, word_at, PointSyntax, Quantity,
};
use crate::text::{append_decimal, append_text, chars_of, decimal, ends_with_chars, owned, text_eq, text_of_range};
use crate::literal::{bool_literal, is_float_literal, unsigned_literal};
use crate::diagnostics::{
    agent_options_failure, agents_failure, availability_failure, bool_failure,
    capacity_change_failure, claim_failure, connector_kind_failure, connector_options_failure,
    count_failure, countermeasure_failure, countermeasure_source_failure, declaration_failure,
    duplicate_failure, duration_failure, ends_failure, escalator_failure, exact_count_failure,
    exit_capacity_failure, exit_failure, expect_failure, final_clearance_failure, first_failure,
    gate_failure, lemma_agent_options_failure_step, length_failure, lift_failure, message_failure,
    obstacle_failure, plain_failure, point_failure, rate_failure, required_failure,
    sampling_key_failure, source_failure, speed_failure, state_change_failure, surface_failure,
    u32_failure, u64_failure, unit_failure, walkway_failure, walking_profile_failure,
    waypoint_failure,
};

verus! {

/// A parse failure: the 1-based source line and what is wrong with it.
#[derive(Debug, Clone, PartialEq, Eq)]
pub struct ParseError {
    pub line: usize,
    pub message: String,
}

impl ParseError {
    /// `line N: MESSAGE`, the form in which the error is reported.
    pub fn to_text(&self) -> (r: String)
        ensures
            r@ == "line "@ + decimal(self.line as nat) + ": "@ + self.message@,
    {
        let mut out = owned("line ");
        append_decimal(&mut out, self.line as u64);
        append_text(&mut out, ": ");
        append_text(&mut out, self.message.as_str());
        out
    }
}

fn error(line: usize, message: String) -> (e: ParseError)
    ensures
        e.line == line,
        e.message == message,
{
    ParseError { line, message }
}

fn cat2(a: &str, b: &str) -> (r: String)
    ensures
        r@ == a@ + b@,
{
    let mut out = owned(a);
    append_text(&mut out, b);
    out
}

fn cat3(a: &str, b: &str, c: &str) -> (r: String)
    ensures
        r@ == a@ + b@ + c@,
{
    let mut out = cat2(a, b);
    append_text(&mut out, c);
    out
}

fn cat5(a: &str, b: &str, c: &str, d: &str, e: &str) -> (r: String)
    ensures
        r@ == a@ + b@ + c@ + d@ + e@,
{
    let mut out = cat3(a, b, c);
    append_text(&mut out, d);
    append_text(&mut out, e);
    out
}

fn cat6(a: &str, b: &str, c: &str, d: &str, e: &str, f: &str) -> (r: String)
    ensures
        r@ == a@ + b@ + c@ + d@ + e@ + f@,
{
    let mut out = cat5(a, b, c, d, e);
    append_text(&mut out, f);
    out
}

/// The token at `index`, or an error naming what is missing.
fn required<'a>(line: usize, tokens: &'a Vec<String>, index: usize, label: &str) -> (r: Result<
    &'a str,
    ParseError,
>)
    ensures
        r is Ok <==> index < tokens@.len(),
        r matches Ok(t) ==> t@ == tokens@[index as int]@,
        r matches Err(e) ==> e.line == line,
        r matches Err(e) ==> Some(e.message@) == required_failure(string_views(tokens@), index as int, label@),
        r is Ok ==> required_failure(string_views(tokens@), index as int, label@) is None,
{
    if index < tokens.len() {
        Ok(tokens[index].as_str())
    } else {
        Err(error(line, cat2("missing ", label)))
    }
}

/// The token at `index` must be the word `expected`.
fn expect(line: usize, tokens: &Vec<String>, index: usize, expected: &str) -> (r: Result<
    (),
    ParseError,
>)
    ensures
        r is Ok <==> word_at(string_views(tokens@), index as int, expected@),
        r matches Err(e) ==> e.line == line,
        r matches Err(e) ==> Some(e.message@) == expect_failure(string_views(tokens@), index as int, expected@),
        r is Ok ==> expect_failure(string_views(tokens@), index as int, expected@) is None,
{
    let actual = required(line, tokens, index, expected)?;
    if text_eq(actual, expected) {
        Ok(())
    } else {
        Err(error(line, cat5("expected `", expected, "`, found `", actual, "`")))
    }
}

/// At least `minimum` tokens.
fn require_count(line: usize, tokens: &Vec<String>, minimum: usize) -> (r: Result<(), ParseError>)
    ensures
        r is Ok <==> tokens@.len() >= minimum,
        r matches Err(e) ==> e.line == line,
        r matches Err(e) ==> Some(e.message@) == count_failure(string_views(tokens@), minimum as nat),
        r is Ok ==> count_failure(string_views(tokens@), minimum as nat) is None,
{
    if tokens.len() < minimum {
        let mut m = owned("expected at least ");
        append_decimal(&mut m, minimum as u64);
        append_text(&mut m, " tokens, found ");
        append_decimal(&mut m, tokens.len() as u64);
        Err(error(line, m))
    } else {
        Ok(())
    }
}

/// Exactly `expected` tokens.
fn require_exact_count(line: usize, tokens: &Vec<String>, expected: usize) -> (r: Result<
    (),
    ParseError,
>)
    ensures
        r is Ok <==> tokens@.len() == expected,
        r matches Err(e) ==> e.line == line,
        r matches Err(e) ==> Some(e.message@) == exact_count_failure(string_views(tokens@), expected as nat),
        r is Ok ==> exact_count_failure(string_views(tokens@), expected as nat) is None,
{
    if tokens.len() == expected {
        Ok(())
    } else {
        let mut m = owned("expected ");
        append_decimal(&mut m, expected as u64);
        append_text(&mut m, " tokens, found ");
        append_decimal(&mut m, tokens.len() as u64);
        Err(error(line, m))
    }
}

/// A single declaration that came before.
fn reject_duplicate(line: usize, duplicate: bool, name: &str) -> (r: Result<(), ParseError>)
    ensures
        r is Ok <==> !duplicate,
        r matches Err(e) ==> e.line == line,
        r matches Err(e) ==> Some(e.message@) == duplicate_failure(duplicate, name@),
        r is Ok ==> duplicate_failure(duplicate, name@) is None,
{
    if duplicate {
        Err(error(line, cat3("duplicate `", name, "` declaration")))
    } else {
        Ok(())
    }
}

/// A number literal of `f64` followed by `suffix`.
fn parse_unit(line: usize, value: &str, suffix: &str, label: &str) -> (r: Result<Quantity, ParseError>)
    ensures
        r is Ok <==> unit_ok(value@, suffix@),
        r matches Ok(q) ==> unit_is(q, value@, suffix@),
        r matches Err(e) ==> e.line == line,
        r matches Err(e) ==> Some(e.message@) == unit_failure(value@, suffix@, label@),
        r is Ok ==> unit_failure(value@, suffix@, label@) is None,
{
    let v = chars_of(value);
    let s = chars_of(suffix);
    if !ends_with_chars(&v, &s) {
        return Err(
            error(line, cat6(label, " `", value, "` must use `", suffix, "` units")),
        );
    }
    let number = text_of_range(&v, 0, v.len() - s.len());
    let digits = chars_of(number.as_str());
    proof {
        assert(v@.subrange(0, v@.len() - s@.len()) =~= without_suffix(value@, suffix@));
    }
    if !float_literal(&digits) {
        return Err(error(line, cat5("invalid ", label, " `", number.as_str(), "`")));
    }
    Ok(Quantity { number, milli: false })
}

/// A unitless `f64` literal.
fn parse_plain(line: usize, value: &str, label: &str) -> (r: Result<Quantity, ParseError>)
    ensures
        r is Ok <==> is_float_literal(value@),
        r matches Ok(q) ==> plain_is(q, value@),
        r matches Err(e) ==> e.line == line,
        r matches Err(e) ==> Some(e.message@) == plain_failure(value@, label@),
        r is Ok ==> plain_failure(value@, label@) is None,
{
    let digits = chars_of(value);
    if !float_literal(&digits) {
        return Err(error(line, cat5("invalid ", label, " `", value, "`")));
    }
    Ok(Quantity { number: owned(value), milli: false })
}

fn parse_length(line: usize, value: &str) -> (r: Result<Quantity, ParseError>)
    ensures
        r is Ok <==> length_ok(value@),
        r matches Ok(q) ==> length_is(q, value@),
        r matches Err(e) ==> e.line == line,
        r matches Err(e) ==> Some(e.message@) == length_failure(value@),
        r is Ok ==> length_failure(value@) is None,
{
    proof {
        reveal_strlit("m");
        assert("m"@ =~= meters());
    }
    parse_unit(line, value, "m", "length")
}

fn parse_speed(line: usize, value: &str) -> (r: Result<Quantity, ParseError>)
    ensures
        r is Ok <==> speed_ok(value@),
        r matches Ok(q) ==> speed_is(q, value@),
        r matches Err(e) ==> e.line == line,
        r matches Err(e) ==> Some(e.message@) == speed_failure(value@),
        r is Ok ==> speed_failure(value@) is None,
{
    proof {
        reveal_strlit("m/s");
        assert("m/s"@ =~= meters_per_second());
    }
    parse_unit(line, value, "m/s", "speed")
}

fn parse_rate(line: usize, value: &str) -> (r: Result<Quantity, ParseError>)
    ensures
        r is Ok <==> rate_ok(value@),
        r matches Ok(q) ==> rate_is(q, value@),
        r matches Err(e) ==> e.line == line,
        r matches Err(e) ==> Some(e.message@) == rate_failure(value@),
        r is Ok ==> rate_failure(value@) is None,
{
    proof {
        reveal_strlit("/s");
        assert("/s"@ =~= per_second());
    }
    parse_unit(line, value, "/s", "rate")
}

/// A number of milliseconds (`ms`) or of seconds (`s`).
fn parse_duration(line: usize, value: &str) -> (r: Result<Quantity, ParseError>)
    ensures
        r is Ok <==> duration_ok(value@),
        r matches Ok(q) ==> duration_is(q, value@),
        r matches Err(e) ==> e.line == line,
        r matches Err(e) ==> Some(e.message@) == duration_failure(value@),
        r is Ok ==> duration_failure(value@) is None,
{
    let v = chars_of(value);
    let ms = chars_of("ms");
    proof {
        reveal_strlit("ms");
        reveal_strlit("s");
        assert(ms@ =~= milliseconds());
        assert("s"@ =~= seconds());
    }
    if ends_with_chars(&v, &ms) {
        let number = text_of_range(&v, 0, v.len() - 2);
        proof {
            assert(v@.subrange(0, v@.len() - 2) =~= without_suffix(value@, milliseconds()));
        }
        let digits = chars_of(number.as_str());
        if !float_literal(&digits) {
            return Err(error(line, cat3("invalid duration `", number.as_str(), "`")));
        }
        return Ok(Quantity { number, milli: true });
    }
    parse_unit(line, value, "s", "duration")
}

/// Three lengths `x y z` from `start`.
fn point(line: usize, tokens: &Vec<String>, start: usize) -> (r: Result<PointSyntax, ParseError>)
    requires
        start + 2 < tokens@.len(),
    ensures
        r is Ok <==> point_ok(string_views(tokens@), start as int),
        r matches Ok(p) ==> point_is(p, string_views(tokens@), start as int),
        r matches Err(e) ==> e.line == line,
        r matches Err(e) ==> Some(e.message@) == point_failure(string_views(tokens@), start as int),
        r is Ok ==> point_failure(string_views(tokens@), start as int) is None,
{
    let ghost tv = string_views(tokens@);
    let n = tokens.len();
    assert(start + 2 < n);
    assert(tv[start as int] == tokens@[start as int]@);
    assert(tv[start + 1] == tokens@[start + 1]@);
    assert(tv[start + 2] == tokens@[start + 2]@);
    let x = parse_length(line, tokens[start].as_str())?;
    let y = parse_length(line, tokens[start + 1].as_str())?;
    let z = parse_length(line, tokens[start + 2].as_str())?;
    Ok(PointSyntax { x, y, z })
}

/// `string_views(tokens)[i]` is the view of `tokens[i]`.
proof fn lemma_token_views(tokens: Seq<String>)
    ensures
        string_views(tokens).len() == tokens.len(),
        forall|i: int| 0 <= i < tokens.len() ==> #[trigger] string_views(tokens)[i] == tokens[i]@,
{
}

/// Whether the token at `index` is the word `w`.
fn token_is(tokens: &Vec<String>, index: usize, w: &str) -> (r: bool)
    requires
        index < tokens@.len(),
    ensures
        r == (string_views(tokens@)[index as int] == w@),
{
    proof {
        lemma_token_views(tokens@);
    }
    text_eq(tokens[index].as_str(), w)
}

/// The owned text of the token at `index`.
fn token_text(tokens: &Vec<String>, index: usize) -> (r: String)
    requires
        index < tokens@.len(),
    ensures
        r@ == string_views(tokens@)[index as int],
{
    proof {
        lemma_token_views(tokens@);
    }
    owned(tokens[index].as_str())
}

fn parse_u32_token(line: usize, value: &str, label: &str) -> (r: Result<u32, ParseError>)
    ensures
        r is Ok <==> u32_ok(value@),
        r matches Ok(n) ==> unsigned_literal(value@) == Some(n as nat),
        r matches Err(e) ==> e.line == line,
        r matches Err(e) ==> Some(e.message@) == u32_failure(value@, label@),
        r is Ok ==> u32_failure(value@, label@) is None,
{
    match parse_u32_literal(&chars_of(value)) {
        Some(n) => Ok(n),
        None => Err(error(line, cat5("invalid ", label, " `", value, "`"))),
    }
}

fn parse_u64_token(line: usize, value: &str, label: &str) -> (r: Result<u64, ParseError>)
    ensures
        r is Ok <==> u64_ok(value@),
        r matches Ok(n) ==> unsigned_literal(value@) == Some(n as nat),
        r matches Err(e) ==> e.line == line,
        r matches Err(e) ==> Some(e.message@) == u64_failure(value@, label@),
        r is Ok ==> u64_failure(value@, label@) is None,
{
    match parse_u64_literal(&chars_of(value)) {
        Some(n) => Ok(n),
        None => Err(error(line, cat5("invalid ", label, " `", value, "`"))),
    }
}

fn parse_bool_token(line: usize, value: &str, label: &str) -> (r: Result<bool, ParseError>)
    ensures
        r is Ok <==> bool_literal(value@) is Some,
        r matches Ok(b) ==> bool_literal(value@) == Some(b),
        r matches Err(e) ==> e.line == line,
        r matches Err(e) ==> Some(e.message@) == bool_failure(value@, label@),
        r is Ok ==> bool_failure(value@, label@) is None,
{
    match parse_bool_literal(&chars_of(value)) {
        Some(b) => Ok(b),
        None => Err(error(line, cat5("invalid ", label, " `", value, "`"))),
    }
}

/// `peer`, `official`, `signage` or `staff`.
pub fn parse_source(line: usize, value: &str) -> (r: Result<InformationSource, ParseError>)
    ensures
        r is Ok <==> information_source_of(value@) is Some,
        r matches Ok(s) ==> information_source_of(value@) == Some(s),
        r matches Err(e) ==> e.line == line,
        r matches Err(e) ==> Some(e.message@) == source_failure(value@),
        r is Ok ==> source_failure(value@) is None,
{
    if text_eq(value, "peer") {
        Ok(InformationSource::Peer)
    } else if text_eq(value, "official") {
        Ok(InformationSource::Official)
    } else if text_eq(value, "signage") {
        Ok(InformationSource::Signage)
    } else if text_eq(value, "staff") {
        Ok(InformationSource::Staff)
    } else {
        Err(
            error(
                line,
                cat3("unknown information source `", value, "`; use peer, official, signage, or staff"),
            ),
        )
    }
}

/// A source that may correct a message: any but `peer`.
pub fn parse_countermeasure_source(line: usize, value: &str) -> (r: Result<
    InformationSource,
    ParseError,
>)
    ensures
        r is Ok <==> (information_source_of(value@) matches Some(s) && s != InformationSource::Peer),
        r matches Ok(s) ==> information_source_of(value@) == Some(s),
        r matches Err(e) ==> e.line == line,
        r matches Err(e) ==> Some(e.message@) == countermeasure_source_failure(value@),
        r is Ok ==> countermeasure_source_failure(value@) is None,
{
    match parse_source(line, value)? {
        InformationSource::Peer => Err(
            error(line, owned("countermeasure source must be official, signage, or staff")),
        ),
        source => Ok(source),
    }
}

/// `open` or `closed`, as whether the subject is open.
pub fn parse_availability_open(line: usize, state: &str) -> (r: Result<bool, ParseError>)
    ensures
        r is Ok <==> availability(state@) is Some,
        r matches Ok(open) ==> availability(state@) == Some(open),
        r matches Err(e) ==> e.line == line,
        r matches Err(e) ==> Some(e.message@) == availability_failure(state@),
        r is Ok ==> availability_failure(state@) is None,
{
    if text_eq(state, "open") {
        Ok(true)
    } else if text_eq(state, "closed") {
        Ok(false)
    } else {
        Err(
            error(
                line,
                cat3("unknown availability state `", state, "`; use `open` or `closed`"),
            ),
        )
    }
}

/// `stair`, `ramp`, `escalator` or `lift`.
pub fn parse_connector_kind(line: usize, value: &str) -> (r: Result<ConnectorKind, ParseError>)
    ensures
        r is Ok <==> connector_kind_of(value@) is Some,
        r matches Ok(k) ==> connector_kind_of(value@) == Some(k),
        r matches Err(e) ==> e.line == line,
        r matches Err(e) ==> Some(e.message@) == connector_kind_failure(value@),
        r is Ok ==> connector_kind_failure(value@) is None,
{
    if text_eq(value, "stair") {
        Ok(ConnectorKind::Stair)
    } else if text_eq(value, "ramp") {
        Ok(ConnectorKind::Ramp)
    } else if text_eq(value, "escalator") {
        Ok(ConnectorKind::Escalator)
    } else if text_eq(value, "lift") {
        Ok(ConnectorKind::Lift)
    } else {
        Err(
            error(
                line,
                cat3("unknown connector kind `", value, "`; use stair, ramp, escalator, or lift"),
            ),
        )
    }
}

/// A claim `KIND SUBJECT STATE` about a connector or an exit.
pub fn parse_claim(line: usize, kind: &str, subject: &str, state: &str) -> (r: Result<
    Proposition,
    ParseError,
>)
    ensures
        r is Ok <==> claim_ok(kind@, state@),
        r matches Ok(p) ==> claim_is(p, kind@, subject@, state@),
        r matches Err(e) ==> e.line == line,
        r matches Err(e) ==> Some(e.message@) == claim_failure(kind@, state@),
        r is Ok ==> claim_failure(kind@, state@) is None,
{
    let open = parse_availability_open(line, state)?;
    if text_eq(kind, "connector") {
        Ok(Proposition::ConnectorAvailability { connector: owned(subject), open })
    } else if text_eq(kind, "exit") {
        Ok(Proposition::ExitAvailability { exit: owned(subject), open })
    } else {
        Err(
            error(
                line,
                cat3("unsupported claim kind `", kind, "`; use `connector` or `exit`"),
            ),
        )
    }
}

/// `capacity RATE` and `clearance LENGTH` clauses, each at most once, from
/// `start` to the end of the line.
fn parse_connector_options(line: usize, tokens: &Vec<String>, start: usize) -> (r: Result<
    (Option<Quantity>, Option<Quantity>),
    ParseError,
>)
    requires
        start <= tokens@.len(),
    ensures
        r is Ok <==> connector_options(string_views(tokens@), start as int) is Some,
        r matches Ok(o) ==> (connector_options(string_views(tokens@), start as int) matches Some(ix)
            && quantity_option_is(o.0, ix.0, string_views(tokens@), |q: Quantity, t: Seq<char>| rate_is(q, t))
            && quantity_option_is(o.1, ix.1, string_views(tokens@), |q: Quantity, t: Seq<char>| length_is(q, t))),
        r matches Err(e) ==> e.line == line,
        r matches Err(e) ==> Some(e.message@) == connector_options_failure(string_views(tokens@), start as int, false, false),
        r is Ok ==> connector_options_failure(string_views(tokens@), start as int, false, false) is None,
{
    let ghost tv = string_views(tokens@);
    proof {
        lemma_token_views(tokens@);
    }
    let mut capacity: Option<Quantity> = None;
    let mut clearance: Option<Quantity> = None;
    let ghost mut capacity_at: Option<int> = None;
    let ghost mut clearance_at: Option<int> = None;
    let mut index = start;
    while index < tokens.len()
        invariant
            tv == string_views(tokens@),
            tv.len() == tokens@.len(),
            start <= index <= tokens@.len(),
            connector_options(tv, start as int) == connector_options_from(
                tv,
                index as int,
                capacity_at,
                clearance_at,
            ),
            connector_options_failure(tv, start as int, false, false) == connector_options_failure(
                tv,
                index as int,
                capacity is Some,
                clearance is Some,
            ),
            quantity_option_is(capacity, capacity_at, tv, |q: Quantity, t: Seq<char>| rate_is(q, t)),
            quantity_option_is(clearance, clearance_at, tv, |q: Quantity, t: Seq<char>| length_is(q, t)),
        decreases tokens@.len() - index,
    {
        let value = required(line, tokens, index + 1, "connector option value")?;
        assert(tv[index as int] == tokens@[index as int]@);
        assert(tv[index + 1] == tokens@[index + 1]@);
        if text_eq(tokens[index].as_str(), "capacity") {
            if capacity.is_some() {
                return Err(error(line, owned("connector capacity may be declared only once")));
            }
            let q = parse_rate(line, value)?;
            capacity = Some(q);
            proof {
                capacity_at = Some(index + 1);
            }
        } else if text_eq(tokens[index].as_str(), "clearance") {
            if clearance.is_some() {
                return Err(error(line, owned("connector clearance may be declared only once")));
            }
            let q = parse_length(line, value)?;
            clearance = Some(q);
            proof {
                clearance_at = Some(index + 1);
            }
        } else {
            return Err(
                error(
                    line,
                    cat3("expected `capacity` or `clearance`, found `", tokens[index].as_str(), "`"),
                ),
            );
        }
        index += 2;
    }
    Ok((capacity, clearance))
}

/// A final `clearance LENGTH` clause at `start`, if any.
fn optional_clearance(line: usize, tokens: &Vec<String>, start: usize, subject: &str) -> (r: Result<
    Option<Quantity>,
    ParseError,
>)
    requires
        start <= tokens@.len(),
    ensures
        r is Ok <==> final_clearance(string_views(tokens@), start as int) is Some,
        r matches Ok(c) ==> (final_clearance(string_views(tokens@), start as int) matches Some(ix)
            && quantity_option_is(c, ix, string_views(tokens@), |q: Quantity, t: Seq<char>| length_is(q, t))),
        r matches Err(e) ==> e.line == line,
        r matches Err(e) ==> Some(e.message@) == final_clearance_failure(string_views(tokens@), start as int, subject@),
        r is Ok ==> final_clearance_failure(string_views(tokens@), start as int, subject@) is None,
{
    proof {
        lemma_token_views(tokens@);
    }
    if start == tokens.len() {
        Ok(None)
    } else if token_is(tokens, start, "clearance") {
        if tokens.len() - start == 2 {
            let c = parse_length(line, tokens[start + 1].as_str())?;
            Ok(Some(c))
        } else {
            Err(
                error(
                    line,
                    cat2(subject, " clearance must be the final `clearance LENGTH` clause"),
                ),
            )
        }
    } else {
        Err(
            error(
                line,
                cat3("expected `clearance`, found `", tokens[start].as_str(), "`"),
            ),
        )
    }
}

/// A final `capacity RATE` clause of an exit, if any.
fn optional_exit_capacity(line: usize, tokens: &Vec<String>) -> (r: Result<
    Option<Quantity>,
    ParseError,
>)
    requires
        tokens@.len() >= 10,
    ensures
        r is Ok <==> final_exit_capacity(string_views(tokens@)) is Some,
        r matches Ok(c) ==> (final_exit_capacity(string_views(tokens@)) matches Some(ix)
            && quantity_option_is(c, ix, string_views(tokens@), |q: Quantity, t: Seq<char>| rate_is(q, t))),
        r matches Err(e) ==> e.line == line,
        r matches Err(e) ==> Some(e.message@) == exit_capacity_failure(string_views(tokens@)),
        r is Ok ==> exit_capacity_failure(string_views(tokens@)) is None,
{
    proof {
        lemma_token_views(tokens@);
    }
    if tokens.len() == 10 {
        Ok(None)
    } else if token_is(tokens, 10, "capacity") {
        if tokens.len() == 12 {
            let c = parse_rate(line, tokens[11].as_str())?;
            Ok(Some(c))
        } else {
            Err(error(line, owned("exit capacity must be the final `capacity RATE` clause")))
        }
    } else {
        Err(error(line, cat3("expected `capacity`, found `", tokens[10].as_str(), "`")))
    }
}

/// A final `sample KEY` clause after `base_count` tokens, if any.
fn optional_sampling_key(line: usize, tokens: &Vec<String>, base_count: usize, declaration: &str) -> (r: Result<
    Option<String>,
    ParseError,
>)
    requires
        base_count <= tokens@.len(),
    ensures
        r is Ok <==> sampling_key(string_views(tokens@), base_count as int) is Some,
        r matches Ok(k) ==> (sampling_key(string_views(tokens@), base_count as int) matches Some(ix)
            && string_option_is(k, ix, string_views(tokens@))),
        r matches Err(e) ==> e.line == line,
        r matches Err(e) ==> Some(e.message@) == sampling_key_failure(string_views(tokens@), base_count as nat, declaration@),
        r is Ok ==> sampling_key_failure(string_views(tokens@), base_count as nat, declaration@) is None,
{
    proof {
        lemma_token_views(tokens@);
    }
    let count = tokens.len();
    if count == base_count {
        Ok(None)
    } else if count - base_count == 2 {
        expect(line, tokens, base_count, "sample")?;
        Ok(Some(token_text(tokens, base_count + 1)))
    } else {
        let mut m = owned("expected ");
        append_decimal(&mut m, base_count as u64);
        append_text(&mut m, " tokens or ");
        append_decimal(&mut m, base_count as u64);
        append_text(&mut m, " followed by `sample KEY` for ");
        append_text(&mut m, declaration);
        append_text(&mut m, ", found ");
        append_decimal(&mut m, count as u64);
        Err(error(line, m))
    }
}

fn parse_surface(line: usize, tokens: &Vec<String>) -> (r: Result<Declaration, ParseError>)
    requires
        tokens@.len() > 0,
        string_views(tokens@)[0] == "surface"@,
    ensures
        r is Ok <==> surface_ok(string_views(tokens@)),
        r matches Ok(d) ==> declaration_is(d, string_views(tokens@)),
        r matches Err(e) ==> e.line == line,
        r matches Err(e) ==> Some(e.message@) == surface_failure(string_views(tokens@)),
        r is Ok ==> surface_failure(string_views(tokens@)) is None,
{
    proof {
        lemma_token_views(tokens@);
    }
    require_exact_count(line, tokens, 9)?;
    expect(line, tokens, 2, "at")?;
    expect(line, tokens, 6, "size")?;
    let origin = point(line, tokens, 3)?;
    let width = parse_length(line, tokens[7].as_str())?;
    let depth = parse_length(line, tokens[8].as_str())?;
    Ok(Declaration::Surface(SurfaceDecl { id: token_text(tokens, 1), origin, width, depth }))
}

fn parse_obstacle(line: usize, tokens: &Vec<String>) -> (r: Result<Declaration, ParseError>)
    requires
        tokens@.len() > 0,
        string_views(tokens@)[0] == "obstacle"@,
    ensures
        r is Ok <==> obstacle_ok(string_views(tokens@)),
        r matches Ok(d) ==> declaration_is(d, string_views(tokens@)),
        r matches Err(e) ==> e.line == line,
        r matches Err(e) ==> Some(e.message@) == obstacle_failure(string_views(tokens@)),
        r is Ok ==> obstacle_failure(string_views(tokens@)) is None,
{
    proof {
        lemma_token_views(tokens@);
    }
    require_exact_count(line, tokens, 11)?;
    expect(line, tokens, 2, "on")?;
    expect(line, tokens, 4, "at")?;
    expect(line, tokens, 8, "size")?;
    let at = point(line, tokens, 5)?;
    let width = parse_length(line, tokens[9].as_str())?;
    let depth = parse_length(line, tokens[10].as_str())?;
    Ok(
        Declaration::Obstacle(
            ObstacleDecl { id: token_text(tokens, 1), surface: token_text(tokens, 3), at, width, depth },
        ),
    )
}

fn parse_waypoint(line: usize, tokens: &Vec<String>) -> (r: Result<Declaration, ParseError>)
    requires
        tokens@.len() > 0,
        string_views(tokens@)[0] == "waypoint"@,
    ensures
        r is Ok <==> waypoint_ok(string_views(tokens@)),
        r matches Ok(d) ==> declaration_is(d, string_views(tokens@)),
        r matches Err(e) ==> e.line == line,
        r matches Err(e) ==> Some(e.message@) == waypoint_failure(string_views(tokens@)),
        r is Ok ==> waypoint_failure(string_views(tokens@)) is None,
{
    proof {
        lemma_token_views(tokens@);
    }
    require_count(line, tokens, 8)?;
    expect(line, tokens, 2, "on")?;
    expect(line, tokens, 4, "at")?;
    let dwell = if tokens.len() == 8 {
        None
    } else if token_is(tokens, 8, "dwell") {
        if tokens.len() == 10 {
            Some(parse_duration(line, tokens[9].as_str())?)
        } else {
            return Err(
                error(line, owned("waypoint dwell must be the final `dwell DURATION` clause")),
            );
        }
    } else {
        return Err(error(line, cat3("expected `dwell`, found `", tokens[8].as_str(), "`")));
    };
    let at = point(line, tokens, 5)?;
    Ok(
        Declaration::Waypoint(
            WaypointDecl { id: token_text(tokens, 1), surface: token_text(tokens, 3), at, dwell },
        ),
    )
}

fn parse_exit(line: usize, tokens: &Vec<String>) -> (r: Result<Declaration, ParseError>)
    requires
        tokens@.len() > 0,
        string_views(tokens@)[0] == "exit"@,
    ensures
        r is Ok <==> exit_ok(string_views(tokens@)),
        r matches Ok(d) ==> declaration_is(d, string_views(tokens@)),
        r matches Err(e) ==> e.line == line,
        r matches Err(e) ==> Some(e.message@) == exit_failure(string_views(tokens@)),
        r is Ok ==> exit_failure(string_views(tokens@)) is None,
{
    proof {
        lemma_token_views(tokens@);
    }
    require_count(line, tokens, 10)?;
    expect(line, tokens, 2, "on")?;
    expect(line, tokens, 4, "at")?;
    expect(line, tokens, 8, "width")?;
    let capacity = optional_exit_capacity(line, tokens)?;
    let at = point(line, tokens, 5)?;
    let width = parse_length(line, tokens[9].as_str())?;
    Ok(
        Declaration::Exit(
            ExitDecl { id: token_text(tokens, 1), surface: token_text(tokens, 3), at, width, capacity },
        ),
    )
}

/// `ID from SURFACE at X Y Z to SURFACE at X Y Z`, shared by all connectors.
fn connector_ends(line: usize, tokens: &Vec<String>) -> (r: Result<ConnectorEnds, ParseError>)
    requires
        tokens@.len() >= 14,
    ensures
        r is Ok <==> ends_ok(string_views(tokens@)),
        r matches Ok(e) ==> ends_is(e, string_views(tokens@)),
        r matches Err(e) ==> e.line == line,
        r matches Err(e) ==> Some(e.message@) == ends_failure(string_views(tokens@)),
        r is Ok ==> ends_failure(string_views(tokens@)) is None,
{
    proof {
        lemma_token_views(tokens@);
    }
    expect(line, tokens, 2, "from")?;
    expect(line, tokens, 4, "at")?;
    expect(line, tokens, 8, "to")?;
    expect(line, tokens, 10, "at")?;
    let from = point(line, tokens, 5)?;
    let to = point(line, tokens, 11)?;
    Ok(
        ConnectorEnds {
            id: token_text(tokens, 1),
            from_surface: token_text(tokens, 3),
            from,
            to_surface: token_text(tokens, 9),
            to,
        },
    )
}

/// A stair (`stair` is true) or a ramp.
fn parse_walkway(line: usize, tokens: &Vec<String>, stair: bool) -> (r: Result<
    Declaration,
    ParseError,
>)
    requires
        tokens@.len() > 0,
        string_views(tokens@)[0] == (if stair { "stair"@ } else { "ramp"@ }),
    ensures
        r is Ok <==> walkway_ok(string_views(tokens@)),
        r matches Ok(d) ==> declaration_is(d, string_views(tokens@)),
        r matches Err(e) ==> e.line == line,
        r matches Err(e) ==> Some(e.message@) == walkway_failure(string_views(tokens@)),
        r is Ok ==> walkway_failure(string_views(tokens@)) is None,
{
    proof {
        lemma_token_views(tokens@);
    }
    require_count(line, tokens, 16)?;
    let ends = connector_ends(line, tokens)?;
    expect(line, tokens, 14, "width")?;
    let (capacity, clearance) = parse_connector_options(line, tokens, 16)?;
    let width = parse_length(line, tokens[15].as_str())?;
    if stair {
        Ok(Declaration::Connector(ConnectorDecl::Stair { ends, width, capacity, clearance }))
    } else {
        Ok(Declaration::Connector(ConnectorDecl::Ramp { ends, width, capacity, clearance }))
    }
}

fn parse_escalator(line: usize, tokens: &Vec<String>) -> (r: Result<Declaration, ParseError>)
    requires
        tokens@.len() > 0,
        string_views(tokens@)[0] == "escalator"@,
    ensures
        r is Ok <==> escalator_ok(string_views(tokens@)),
        r matches Ok(d) ==> declaration_is(d, string_views(tokens@)),
        r matches Err(e) ==> e.line == line,
        r matches Err(e) ==> Some(e.message@) == escalator_failure(string_views(tokens@)),
        r is Ok ==> escalator_failure(string_views(tokens@)) is None,
{
    proof {
        lemma_token_views(tokens@);
    }
    require_count(line, tokens, 18)?;
    let ends = connector_ends(line, tokens)?;
    expect(line, tokens, 14, "width")?;
    expect(line, tokens, 16, "belt")?;
    let (capacity, clearance) = parse_connector_options(line, tokens, 18)?;
    let width = parse_length(line, tokens[15].as_str())?;
    let belt_speed = parse_speed(line, tokens[17].as_str())?;
    Ok(
        Declaration::Connector(
            ConnectorDecl::Escalator { ends, width, belt_speed, capacity, clearance },
        ),
    )
}

fn parse_lift(line: usize, tokens: &Vec<String>) -> (r: Result<Declaration, ParseError>)
    requires
        tokens@.len() > 0,
        string_views(tokens@)[0] == "lift"@,
    ensures
        r is Ok <==> lift_ok(string_views(tokens@)),
        r matches Ok(d) ==> declaration_is(d, string_views(tokens@)),
        r matches Err(e) ==> e.line == line,
        r matches Err(e) ==> Some(e.message@) == lift_failure(string_views(tokens@)),
        r is Ok ==> lift_failure(string_views(tokens@)) is None,
{
    proof {
        lemma_token_views(tokens@);
    }
    require_count(line, tokens, 21)?;
    let ends = connector_ends(line, tokens)?;
    expect(line, tokens, 14, "cabin")?;
    expect(line, tokens, 17, "capacity")?;
    expect(line, tokens, 19, "cycle")?;
    let cabin_width = parse_length(line, tokens[15].as_str())?;
    let cabin_depth = parse_length(line, tokens[16].as_str())?;
    let capacity = parse_u32_token(line, tokens[18].as_str(), "lift capacity")?;
    let cycle = parse_duration(line, tokens[20].as_str())?;
    let clearance = optional_clearance(line, tokens, 21, "lift")?;
    Ok(
        Declaration::Connector(
            ConnectorDecl::Lift { ends, cabin_width, cabin_depth, capacity, cycle, clearance },
        ),
    )
}

/// `ID SUBJECT_KIND SUBJECT open|closed time DURATION`.
fn parse_state_change(line: usize, tokens: &Vec<String>, subject_kind: &str) -> (r: Result<
    StateChangeDecl,
    ParseError,
>)
    ensures
        r is Ok <==> state_change_ok(string_views(tokens@), subject_kind@),
        r matches Ok(d) ==> crate::syntax::state_change_is(d, string_views(tokens@)),
        r matches Err(e) ==> e.line == line,
        r matches Err(e) ==> Some(e.message@) == state_change_failure(string_views(tokens@), subject_kind@),
        r is Ok ==> state_change_failure(string_views(tokens@), subject_kind@) is None,
{
    proof {
        lemma_token_views(tokens@);
    }
    require_exact_count(line, tokens, 7)?;
    expect(line, tokens, 2, subject_kind)?;
    expect(line, tokens, 5, "time")?;
    let open = parse_availability_open(line, tokens[4].as_str())?;
    let at = parse_duration(line, tokens[6].as_str())?;
    Ok(StateChangeDecl { id: token_text(tokens, 1), subject: token_text(tokens, 3), open, at })
}

/// `ID SUBJECT_KIND SUBJECT capacity RATE time DURATION`.
fn parse_capacity_change(line: usize, tokens: &Vec<String>, subject_kind: &str) -> (r: Result<
    CapacityChangeDecl,
    ParseError,
>)
    ensures
        r is Ok <==> capacity_change_ok(string_views(tokens@), subject_kind@),
        r matches Ok(d) ==> crate::syntax::capacity_change_is(d, string_views(tokens@)),
        r matches Err(e) ==> e.line == line,
        r matches Err(e) ==> Some(e.message@) == capacity_change_failure(string_views(tokens@), subject_kind@),
        r is Ok ==> capacity_change_failure(string_views(tokens@), subject_kind@) is None,
{
    proof {
        lemma_token_views(tokens@);
    }
    require_exact_count(line, tokens, 8)?;
    expect(line, tokens, 2, subject_kind)?;
    expect(line, tokens, 4, "capacity")?;
    expect(line, tokens, 6, "time")?;
    let capacity = parse_rate(line, tokens[5].as_str())?;
    let at = parse_duration(line, tokens[7].as_str())?;
    Ok(
        CapacityChangeDecl {
            id: token_text(tokens, 1),
            subject: token_text(tokens, 3),
            capacity,
            at,
        },
    )
}

fn parse_gate(line: usize, tokens: &Vec<String>) -> (r: Result<Declaration, ParseError>)
    requires
        tokens@.len() > 0,
        string_views(tokens@)[0] == "gate"@,
    ensures
        r is Ok <==> gate_ok(string_views(tokens@)),
        r matches Ok(d) ==> declaration_is(d, string_views(tokens@)),
        r matches Err(e) ==> e.line == line,
        r matches Err(e) ==> Some(e.message@) == gate_failure(string_views(tokens@)),
        r is Ok ==> gate_failure(string_views(tokens@)) is None,
{
    proof {
        lemma_token_views(tokens@);
    }
    require_exact_count(line, tokens, 14)?;
    expect(line, tokens, 2, "on")?;
    expect(line, tokens, 4, "at")?;
    expect(line, tokens, 8, "width")?;
    expect(line, tokens, 10, "capacity")?;
    expect(line, tokens, 12, "to")?;
    let at = point(line, tokens, 5)?;
    let width = parse_length(line, tokens[9].as_str())?;
    let service_rate = parse_rate(line, tokens[11].as_str())?;
    Ok(
        Declaration::Gate(
            GateDecl {
                id: token_text(tokens, 1),
                surface: token_text(tokens, 3),
                at,
                width,
                service_rate,
                destination: token_text(tokens, 13),
            },
        ),
    )
}

/// The optional clauses of an `agents` declaration.
struct AgentOptions {
    release_at: Option<Quantity>,
    release_interval: Option<Quantity>,
    release_batch_size: Option<u32>,
    via: Vec<String>,
    alternative_destinations: Vec<String>,
    /// In the order of the clauses.
    excluded: Vec<ConnectorKind>,
}

spec fn agent_options_match(o: AgentOptions, ix: AgentOptionIndices, tv: Seq<Seq<char>>) -> bool {
    &&& quantity_option_is(o.release_at, ix.0, tv, |q: Quantity, t: Seq<char>| duration_is(q, t))
    &&& quantity_option_is(o.release_interval, ix.1, tv, |q: Quantity, t: Seq<char>| duration_is(q, t))
    &&& match (o.release_batch_size, ix.2) {
        (None, None) => true,
        (Some(b), Some(k)) => 0 <= k < tv.len() && unsigned_literal(tv[k]) == Some(b as nat),
        _ => false,
    }
    &&& strings_at(o.via@, ix.3, tv)
    &&& strings_at(o.alternative_destinations@, ix.4, tv)
    &&& o.excluded@ == ix.5
}

/// Whether one of `v` is the text `t`.
fn contains_text(v: &Vec<String>, t: &str) -> (r: bool)
    ensures
        r == exists|j: int| 0 <= j < v@.len() && (#[trigger] v@[j])@ == t@,
{
    let mut i: usize = 0;
    while i < v.len()
        invariant
            i <= v@.len(),
            forall|j: int| 0 <= j < i ==> (#[trigger] v@[j])@ != t@,
        decreases v@.len() - i,
    {
        if text_eq(v[i].as_str(), t) {
            return true;
        }
        i += 1;
    }
    false
}

fn contains_kind(v: &Vec<ConnectorKind>, k: ConnectorKind) -> (r: bool)
    ensures
        r == v@.contains(k),
{
    let mut i: usize = 0;
    while i < v.len()
        invariant
            i <= v@.len(),
            forall|j: int| 0 <= j < i ==> v@[j] != k,
        decreases v@.len() - i,
    {
        if v[i] == k {
            assert(v@[i as int] == k);
            return true;
        }
        i += 1;
    }
    false
}

/// The kinds of `v` without repetition, in the order stair, ramp, escalator, lift.
fn kinds_sorted(v: &Vec<ConnectorKind>) -> (r: Vec<ConnectorKind>)
    ensures
        r@ == kinds_in_order(v@),
{
    let mut out: Vec<ConnectorKind> = Vec::new();
    if contains_kind(v, ConnectorKind::Stair) {
        out.push(ConnectorKind::Stair);
    }
    if contains_kind(v, ConnectorKind::Ramp) {
        out.push(ConnectorKind::Ramp);
    }
    if contains_kind(v, ConnectorKind::Escalator) {
        out.push(ConnectorKind::Escalator);
    }
    if contains_kind(v, ConnectorKind::Lift) {
        out.push(ConnectorKind::Lift);
    }
    assert(out@ =~= kinds_in_order(v@));
    out
}

/// The `release`, `via`, `alternative` and `exclude` clauses from token 18 on.
fn parse_agent_options(line: usize, tokens: &Vec<String>, start: usize) -> (r: Result<AgentOptions, ParseError>)
    requires
        tokens@.len() >= start,
        start == 18 + speed_shift(string_views(tokens@)),
    ensures
        r is Ok <==> agent_options(string_views(tokens@)) is Some,
        r matches Ok(o) ==> (agent_options(string_views(tokens@)) matches Some(ix)
            && agent_options_match(o, ix, string_views(tokens@))),
        r matches Err(e) ==> e.line == line,
        r matches Err(e) ==> Some(e.message@) == agent_options_failure(string_views(tokens@), string_views(tokens@)[11], start as int, (None, None, None, Seq::empty(), Seq::empty(), Seq::empty())),
        r is Ok ==> agent_options_failure(string_views(tokens@), string_views(tokens@)[11], start as int, (None, None, None, Seq::empty(), Seq::empty(), Seq::empty())) is None,
{
    let ghost tv = string_views(tokens@);
    proof {
        lemma_token_views(tokens@);
    }
    let mut release_at: Option<Quantity> = None;
    let mut release_interval: Option<Quantity> = None;
    let mut release_batch_size: Option<u32> = None;
    let mut via: Vec<String> = Vec::new();
    let mut alternative_destinations: Vec<String> = Vec::new();
    let mut excluded: Vec<ConnectorKind> = Vec::new();
    let ghost mut st: AgentOptionIndices = (
        None,
        None,
        None,
        Seq::empty(),
        Seq::empty(),
        Seq::empty(),
    );
    let mut index: usize = start;
    while index < tokens.len()
        invariant
            tv == string_views(tokens@),
            tv.len() == tokens@.len(),
            tokens@.len() >= start,
            start == 18 + speed_shift(tv),
            start <= index <= tokens@.len(),
            agent_options(tv) == agent_options_from(tv, tv[11], index as int, st),
            agent_options_failure(
                tv,
                tv[11],
                start as int,
                (None, None, None, Seq::empty(), Seq::empty(), Seq::empty()),
            ) == agent_options_failure(tv, tv[11], index as int, st),
            st.0 is Some <==> release_at is Some,
            agent_options_match(
                AgentOptions {
                    release_at,
                    release_interval,
                    release_batch_size,
                    via,
                    alternative_destinations,
                    excluded,
                },
                st,
                tv,
            ),
        decreases tokens@.len() - index,
    {
        let i0 = index;
        proof {
            lemma_agent_options_failure_step(tv, tv[11], index as int, st);
        }
        assert(tv[i0 as int] == tokens@[i0 as int]@);
        let t = tokens[index].as_str();
        if text_eq(t, "release") && release_at.is_none() {
            let v = required(line, tokens, index + 1, "agent release time")?;
            let at = parse_duration(line, v)?;
            release_at = Some(at);
            proof {
                st = (Some(i0 + 1), st.1, st.2, st.3, st.4, st.5);
            }
            if index + 2 < tokens.len() && token_is(tokens, index + 2, "every") {
                let v = required(line, tokens, index + 3, "agent release interval")?;
                let every = parse_duration(line, v)?;
                release_interval = Some(every);
                proof {
                    st = (st.0, Some(i0 + 3), st.2, st.3, st.4, st.5);
                }
                index += 2;
                if index + 2 < tokens.len() && token_is(tokens, index + 2, "batch") {
                    let v = required(line, tokens, index + 3, "agent release batch size")?;
                    let batch = parse_u32_token(line, v, "agent release batch size")?;
                    release_batch_size = Some(batch);
                    proof {
                        st = (st.0, st.1, Some(i0 + 5), st.3, st.4, st.5);
                    }
                    index += 2;
                }
            }
        } else if text_eq(t, "via") {
            let waypoint = required(line, tokens, index + 1, "journey waypoint")?;
            let ghost before = via@;
            via.push(owned(waypoint));
            proof {
                let old_ix = st.3;
                st = (st.0, st.1, st.2, st.3.push(i0 + 1), st.4, st.5);
                assert forall|j: int| 0 <= j < via@.len() implies 0 <= #[trigger] st.3[j] < tv.len()
                    && via@[j]@ == tv[st.3[j]] by {
                    if j < before.len() {
                        assert(via@[j] == before[j]);
                        assert(st.3[j] == old_ix[j]);
                    }
                }
            }
        } else if text_eq(t, "alternative") {
            let exit_id = required(line, tokens, index + 1, "alternative exit")?;
            assert(tv[11] == tokens@[11]@);
            let primary = text_eq(exit_id, tokens[11].as_str());
            let repeated = contains_text(&alternative_destinations, exit_id);
            proof {
                let seen = exists|j: int|
                    0 <= j < st.4.len() && 0 <= st.4[j] < tv.len() && #[trigger] tv[st.4[j]]
                        == tv[i0 + 1];
                if repeated {
                    let j = choose|j: int|
                        0 <= j < alternative_destinations@.len() && (#[trigger] alternative_destinations@[j])@
                            == exit_id@;
                    assert(tv[st.4[j]] == tv[i0 + 1]);
                }
                if seen {
                    let j = choose|j: int|
                        0 <= j < st.4.len() && 0 <= st.4[j] < tv.len() && #[trigger] tv[st.4[j]]
                            == tv[i0 + 1];
                    assert(alternative_destinations@[j]@ == exit_id@);
                }
            }
            if primary || repeated {
                return Err(error(line, cat3("duplicate alternative exit `", exit_id, "`")));
            }
            let ghost before = alternative_destinations@;
            alternative_destinations.push(owned(exit_id));
            proof {
                let old_ix = st.4;
                st = (st.0, st.1, st.2, st.3, st.4.push(i0 + 1), st.5);
                assert forall|j: int|
                    0 <= j < alternative_destinations@.len() implies 0 <= #[trigger] st.4[j] < tv.len()
                    && alternative_destinations@[j]@ == tv[st.4[j]] by {
                    if j < before.len() {
                        assert(alternative_destinations@[j] == before[j]);
                        assert(st.4[j] == old_ix[j]);
                    }
                }
            }
        } else if text_eq(t, "exclude") {
            let value = required(line, tokens, index + 1, "excluded connector kind")?;
            let kind = parse_connector_kind(line, value)?;
            if contains_kind(&excluded, kind) {
                return Err(
                    error(line, cat3("duplicate `exclude ", kind.as_str(), "` clause")),
                );
            }
            excluded.push(kind);
            proof {
                st = (st.0, st.1, st.2, st.3, st.4, st.5.push(kind));
            }
        } else if text_eq(t, "batch") {
            return Err(error(line, owned("`batch` requires `release DURATION every DURATION`")));
        } else if text_eq(t, "release") {
            return Err(error(line, owned("duplicate `release` clause")));
        } else {
            return Err(error(line, cat3("unknown agent option `", t, "`")));
        }
        index += 2;
    }
    proof {
        lemma_agent_options_failure_step(tv, tv[11], index as int, st);
    }
    Ok(
        AgentOptions {
            release_at,
            release_interval,
            release_batch_size,
            via,
            alternative_destinations,
            excluded,
        },
    )
}

fn parse_agents(line: usize, tokens: &Vec<String>) -> (r: Result<Declaration, ParseError>)
    requires
        tokens@.len() > 0,
        string_views(tokens@)[0] == "agents"@,
    ensures
        r is Ok <==> agents_ok(string_views(tokens@)),
        r matches Ok(d) ==> declaration_is(d, string_views(tokens@)),
        r matches Err(e) ==> e.line == line,
        r matches Err(e) ==> Some(e.message@) == agents_failure(string_views(tokens@)),
        r is Ok ==> agents_failure(string_views(tokens@)) is None,
{
    proof {
        lemma_token_views(tokens@);
    }
    let shift: usize = if tokens.len() > 13 && token_is(tokens, 13, "profile") {
        1
    } else {
        0
    };
    require_count(line, tokens, 18 + shift)?;
    expect(line, tokens, 2, "count")?;
    expect(line, tokens, 4, "on")?;
    expect(line, tokens, 6, "at")?;
    expect(line, tokens, 10, "to")?;
    expect(line, tokens, 12, "speed")?;
    expect(line, tokens, 14 + shift, "radius")?;
    expect(line, tokens, 16 + shift, "height")?;
    let options = parse_agent_options(line, tokens, 18 + shift)?;
    let count = parse_u32_token(line, tokens[3].as_str(), "agent count")?;
    let at = point(line, tokens, 7)?;
    let speed = if shift == 1 {
        AgentSpeed::Profile(token_text(tokens, 14))
    } else {
        AgentSpeed::Given(parse_speed(line, tokens[13].as_str())?)
    };
    let radius = parse_length(line, tokens[15 + shift].as_str())?;
    let height = parse_length(line, tokens[17 + shift].as_str())?;
    let excluded_connector_kinds = kinds_sorted(&options.excluded);
    Ok(
        Declaration::Agents(
            AgentsDecl {
                id: token_text(tokens, 1),
                count,
                surface: token_text(tokens, 5),
                at,
                destination: token_text(tokens, 11),
                alternative_destinations: options.alternative_destinations,
                speed,
                radius,
                height,
                release_at: options.release_at,
                release_interval: options.release_interval,
                release_batch_size: options.release_batch_size,
                via: options.via,
                excluded_connector_kinds,
            },
        ),
    )
}

fn parse_message(line: usize, tokens: &Vec<String>) -> (r: Result<Declaration, ParseError>)
    requires
        tokens@.len() > 0,
        string_views(tokens@)[0] == "message"@,
    ensures
        r is Ok <==> message_ok(string_views(tokens@)),
        r matches Ok(d) ==> declaration_is(d, string_views(tokens@)),
        r matches Err(e) ==> e.line == line,
        r matches Err(e) ==> Some(e.message@) == message_failure(string_views(tokens@)),
        r is Ok ==> message_failure(string_views(tokens@)) is None,
{
    proof {
        lemma_token_views(tokens@);
    }
    require_count(line, tokens, 22)?;
    let sampling_key = optional_sampling_key(line, tokens, 22, "message")?;
    expect(line, tokens, 2, "source")?;
    expect(line, tokens, 4, "on")?;
    expect(line, tokens, 6, "at")?;
    expect(line, tokens, 10, "claim")?;
    expect(line, tokens, 14, "truth")?;
    expect(line, tokens, 16, "time")?;
    expect(line, tokens, 18, "reach")?;
    expect(line, tokens, 20, "trust")?;
    let source = parse_source(line, tokens[3].as_str())?;
    let origin = point(line, tokens, 7)?;
    let claim = parse_claim(
        line,
        tokens[11].as_str(),
        tokens[12].as_str(),
        tokens[13].as_str(),
    )?;
    let truthful = parse_bool_token(line, tokens[15].as_str(), "message truth value")?;
    let at = parse_duration(line, tokens[17].as_str())?;
    let reach = parse_length(line, tokens[19].as_str())?;
    let trust = parse_plain(line, tokens[21].as_str(), "message trust")?;
    Ok(
        Declaration::Message(
            MessageDecl {
                id: token_text(tokens, 1),
                source,
                surface: token_text(tokens, 5),
                origin,
                claim,
                truthful,
                at,
                reach,
                trust,
                sampling_key,
            },
        ),
    )
}

fn parse_countermeasure(line: usize, tokens: &Vec<String>) -> (r: Result<Declaration, ParseError>)
    requires
        tokens@.len() > 0,
        string_views(tokens@)[0] == "countermeasure"@,
    ensures
        r is Ok <==> countermeasure_ok(string_views(tokens@)),
        r matches Ok(d) ==> declaration_is(d, string_views(tokens@)),
        r matches Err(e) ==> e.line == line,
        r matches Err(e) ==> Some(e.message@) == countermeasure_failure(string_views(tokens@)),
        r is Ok ==> countermeasure_failure(string_views(tokens@)) is None,
{
    proof {
        lemma_token_views(tokens@);
    }
    require_count(line, tokens, 18)?;
    let sampling_key = optional_sampling_key(line, tokens, 18, "countermeasure")?;
    expect(line, tokens, 2, "corrects")?;
    expect(line, tokens, 4, "source")?;
    expect(line, tokens, 6, "on")?;
    expect(line, tokens, 8, "at")?;
    expect(line, tokens, 12, "time")?;
    expect(line, tokens, 14, "reach")?;
    expect(line, tokens, 16, "trust")?;
    let source = parse_countermeasure_source(line, tokens[5].as_str())?;
    let origin = point(line, tokens, 9)?;
    let at = parse_duration(line, tokens[13].as_str())?;
    let reach = parse_length(line, tokens[15].as_str())?;
    let trust = parse_plain(line, tokens[17].as_str(), "countermeasure trust")?;
    Ok(
        Declaration::Countermeasure(
            CountermeasureDecl {
                id: token_text(tokens, 1),
                corrects: token_text(tokens, 3),
                source,
                surface: token_text(tokens, 7),
                origin,
                at,
                reach,
                trust,
                sampling_key,
            },
        ),
    )
}

fn parse_walking_profile(line: usize, tokens: &Vec<String>) -> (r: Result<Declaration, ParseError>)
    requires
        tokens@.len() > 0,
        string_views(tokens@)[0] == "walking-profile"@,
    ensures
        r is Ok <==> walking_profile_ok(string_views(tokens@)),
        r matches Ok(d) ==> declaration_is(d, string_views(tokens@)),
        r matches Err(e) ==> e.line == line,
        r matches Err(e) ==> Some(e.message@) == walking_profile_failure(string_views(tokens@)),
        r is Ok ==> walking_profile_failure(string_views(tokens@)) is None,
{
    proof {
        lemma_token_views(tokens@);
    }
    require_exact_count(line, tokens, 11)?;
    expect(line, tokens, 2, "horizontal-free-walking")?;
    expect(line, tokens, 3, "speed")?;
    expect(line, tokens, 5, "catalog-sha256")?;
    expect(line, tokens, 7, "calibration-profile-sha256")?;
    expect(line, tokens, 9, "held-out-evaluation-sha256")?;
    let speed = parse_speed(line, tokens[4].as_str())?;
    Ok(
        Declaration::WalkingProfile(
            WalkingProfileDecl {
                id: token_text(tokens, 1),
                speed,
                catalog_sha256: token_text(tokens, 6),
                calibration_profile_sha256: token_text(tokens, 8),
                held_out_evaluation_sha256: token_text(tokens, 10),
            },
        ),
    )
}

/// The declaration that one line's tokens denote. `have_*` say which of the
/// single `scenario`, `seed`, `duration` and `timestep` declarations came
/// before; a second one is an error.
pub fn parse_declaration(
    line: usize,
    tokens: &Vec<String>,
    have_name: bool,
    have_seed: bool,
    have_duration: bool,
    have_timestep: bool,
) -> (r: Result<Declaration, ParseError>)
    requires
        tokens@.len() > 0,
    ensures
        r is Ok <==> declaration_accepted(
            string_views(tokens@),
            have_name,
            have_seed,
            have_duration,
            have_timestep,
        ),
        r matches Ok(d) ==> declaration_is(d, string_views(tokens@)),
        r matches Err(e) ==> e.line == line,
        r matches Err(e) ==> Some(e.message@) == declaration_failure(string_views(tokens@), have_name, have_seed, have_duration, have_timestep),
        r is Ok ==> declaration_failure(string_views(tokens@), have_name, have_seed, have_duration, have_timestep) is None,
{
    proof {
        lemma_token_views(tokens@);
    }
    if token_is(tokens, 0, "scenario") {
        reject_duplicate(line, have_name, "scenario")?;
        require_exact_count(line, tokens, 2)?;
        Ok(Declaration::Scenario(token_text(tokens, 1)))
    } else if token_is(tokens, 0, "seed") {
        reject_duplicate(line, have_seed, "seed")?;
        require_exact_count(line, tokens, 2)?;
        Ok(Declaration::Seed(parse_u64_token(line, tokens[1].as_str(), "seed")?))
    } else if token_is(tokens, 0, "duration") {
        reject_duplicate(line, have_duration, "duration")?;
        require_exact_count(line, tokens, 2)?;
        Ok(Declaration::Duration(parse_duration(line, tokens[1].as_str())?))
    } else if token_is(tokens, 0, "timestep") {
        reject_duplicate(line, have_timestep, "timestep")?;
        require_exact_count(line, tokens, 2)?;
        Ok(Declaration::Timestep(parse_duration(line, tokens[1].as_str())?))
    } else if token_is(tokens, 0, "surface") {
        parse_surface(line, tokens)
    } else if token_is(tokens, 0, "obstacle") {
        parse_obstacle(line, tokens)
    } else if token_is(tokens, 0, "waypoint") {
        parse_waypoint(line, tokens)
    } else if token_is(tokens, 0, "exit") {
        parse_exit(line, tokens)
    } else if token_is(tokens, 0, "stair") {
        parse_walkway(line, tokens, true)
    } else if token_is(tokens, 0, "ramp") {
        parse_walkway(line, tokens, false)
    } else if token_is(tokens, 0, "escalator") {
        parse_escalator(line, tokens)
    } else if token_is(tokens, 0, "lift") {
        parse_lift(line, tokens)
    } else if token_is(tokens, 0, "connector-state") {
        Ok(Declaration::ConnectorState(parse_state_change(line, tokens, "connector")?))
    } else if token_is(tokens, 0, "exit-state") {
        Ok(Declaration::ExitState(parse_state_change(line, tokens, "exit")?))
    } else if token_is(tokens, 0, "connector-capacity-state") {
        Ok(Declaration::ConnectorCapacityState(parse_capacity_change(line, tokens, "connector")?))
    } else if token_is(tokens, 0, "exit-capacity-state") {
        Ok(Declaration::ExitCapacityState(parse_capacity_change(line, tokens, "exit")?))
    } else if token_is(tokens, 0, "gate") {
        parse_gate(line, tokens)
    } else if token_is(tokens, 0, "gate-state") {
        Ok(Declaration::GateState(parse_state_change(line, tokens, "gate")?))
    } else if token_is(tokens, 0, "gate-capacity-state") {
        Ok(Declaration::GateCapacityState(parse_capacity_change(line, tokens, "gate")?))
    } else if token_is(tokens, 0, "agents") {
        parse_agents(line, tokens)
    } else if token_is(tokens, 0, "message") {
        parse_message(line, tokens)
    } else if token_is(tokens, 0, "countermeasure") {
        parse_countermeasure(line, tokens)
    } else if token_is(tokens, 0, "walking-profile") {
        parse_walking_profile(line, tokens)
    } else {
        Err(error(line, cat3("unknown declaration `", tokens[0].as_str(), "`")))
    }
}

/// A whole scenario source, parsed.
#[derive(Debug, Clone)]
pub struct ParsedScenario {
    pub name: String,
    pub seed: u64,
    pub duration: Quantity,
    pub timestep: Quantity,
    /// Every declaration in source order, the four above included.
    pub declarations: Vec<Declaration>,
}

/// The tokens of one source line: the part before `#`, split into tokens.
pub open spec fn line_tokens(l: Seq<char>) -> Result<Seq<Seq<char>>, Seq<char>> {
    tokens_of(before_comment(l))
}

/// The tokens of the lines that hold a declaration, in order.
pub open spec fn declaration_lines(lines: Seq<Seq<char>>) -> Seq<Seq<Seq<char>>>
    decreases lines.len(),
{
    if lines.len() == 0 {
        Seq::empty()
    } else {
        let before = declaration_lines(lines.drop_last());
        match line_tokens(lines.last()) {
            Ok(t) => if t.len() > 0 {
                before.push(t)
            } else {
                before
            },
            Err(_) => before,
        }
    }
}

/// Whether one of the declarations starts with `keyword`.
pub open spec fn declares(d: Seq<Seq<Seq<char>>>, keyword: Seq<char>) -> bool {
    exists|i: int| 0 <= i < d.len() && d[i].len() > 0 && #[trigger] d[i][0] == keyword
}

/// Whether line `l`, after the lines `previous`, is rejected.
pub open spec fn line_rejected(previous: Seq<Seq<char>>, l: Seq<char>) -> bool {
    let d = declaration_lines(previous);
    match line_tokens(l) {
        Err(_) => true,
        Ok(t) => t.len() > 0 && !declaration_accepted(
            t,
            declares(d, "scenario"@),
            declares(d, "seed"@),
            declares(d, "duration"@),
            declares(d, "timestep"@),
        ),
    }
}

/// The index of the first rejected line, if any.
pub open spec fn first_rejected(lines: Seq<Seq<char>>) -> Option<int>
    decreases lines.len(),
{
    if lines.len() == 0 {
        None
    } else {
        match first_rejected(lines.drop_last()) {
            Some(k) => Some(k),
            None => if line_rejected(lines.drop_last(), lines.last()) {
                Some(lines.len() - 1)
            } else {
                None
            },
        }
    }
}

/// Whether a source of these lines parses: no line is rejected and each of
/// `scenario`, `seed`, `duration` and `timestep` is declared.
pub open spec fn source_accepted(lines: Seq<Seq<char>>) -> bool {
    let d = declaration_lines(lines);
    &&& first_rejected(lines) is None
    &&& declares(d, "scenario"@)
    &&& declares(d, "seed"@)
    &&& declares(d, "duration"@)
    &&& declares(d, "timestep"@)
}

/// `p` is what the declaration lines `d` denote.
pub open spec fn parsed_is(p: ParsedScenario, d: Seq<Seq<Seq<char>>>) -> bool {
    &&& p.declarations@.len() == d.len()
    &&& forall|i: int| 0 <= i < d.len() ==> declaration_is(#[trigger] p.declarations@[i], d[i])
    &&& forall|i: int| 0 <= i < d.len() && #[trigger] d[i][0] == "scenario"@ ==> p.name@ == d[i][1]
    &&& forall|i: int|
        0 <= i < d.len() && #[trigger] d[i][0] == "seed"@ ==> unsigned_literal(d[i][1]) == Some(
            p.seed as nat,
        )
    &&& forall|i: int| 0 <= i < d.len() && #[trigger] d[i][0] == "duration"@ ==> duration_is(p.duration, d[i][1])
    &&& forall|i: int| 0 <= i < d.len() && #[trigger] d[i][0] == "timestep"@ ==> duration_is(p.timestep, d[i][1])
}

/// The error reported for a source of these lines that does not parse: at
/// the first rejected line, with the tokenizer's message where the line does
/// not tokenize and the declaration's first failure where it does; otherwise
/// at the last line (line 1 of an empty source), for the first missing
/// required declaration.
pub open spec fn parse_error_is(e: ParseError, lines: Seq<Seq<char>>) -> bool {
    let d = declaration_lines(lines);
    match first_rejected(lines) {
        Some(k) => e.line == k + 1 && match line_tokens(lines[k]) {
            Err(m) => e.message@ == m,
            Ok(t) => {
                let dk = declaration_lines(lines.take(k));
                Some(e.message@) == declaration_failure(
                    t,
                    declares(dk, "scenario"@),
                    declares(dk, "seed"@),
                    declares(dk, "duration"@),
                    declares(dk, "timestep"@),
                )
            },
        },
        None => {
            &&& e.line == (if lines.len() == 0 { 1 } else { lines.len() })
            &&& e.message@ == if !declares(d, "scenario"@) {
                "missing `scenario` declaration"@
            } else if !declares(d, "seed"@) {
                "missing `seed` declaration"@
            } else if !declares(d, "duration"@) {
                "missing `duration` declaration"@
            } else {
                "missing `timestep` declaration"@
            }
        },
    }
}

proof fn lemma_declares_push(d: Seq<Seq<Seq<char>>>, t: Seq<Seq<char>>, keyword: Seq<char>)
    requires
        t.len() > 0,
    ensures
        declares(d.push(t), keyword) <==> declares(d, keyword) || t[0] == keyword,
{
    let e = d.push(t);
    if declares(d, keyword) {
        let i = choose|i: int| 0 <= i < d.len() && d[i].len() > 0 && #[trigger] d[i][0] == keyword;
        assert(e[i] == d[i]);
    }
    if t[0] == keyword {
        assert(e[d.len() as int] == t);
    }
    if declares(e, keyword) {
        let i = choose|i: int| 0 <= i < e.len() && e[i].len() > 0 && #[trigger] e[i][0] == keyword;
        if i < d.len() {
            assert(e[i] == d[i]);
        }
    }
}

/// The first token of a declaration line names one of the four single
/// declarations exactly when the declaration is that one.
proof fn lemma_single_keywords(d: Declaration, tv: Seq<Seq<char>>)
    requires
        declaration_is(d, tv),
    ensures
        tv[0] == "scenario"@ <==> d is Scenario,
        tv[0] == "seed"@ <==> d is Seed,
        tv[0] == "duration"@ <==> d is Duration,
        tv[0] == "timestep"@ <==> d is Timestep,
{
    reveal_strlit("scenario");
    reveal_strlit("seed");
    reveal_strlit("duration");
    reveal_strlit("timestep");
    reveal_strlit("surface");
    reveal_strlit("obstacle");
    reveal_strlit("waypoint");
    reveal_strlit("exit");
    reveal_strlit("stair");
    reveal_strlit("ramp");
    reveal_strlit("escalator");
    reveal_strlit("lift");
    reveal_strlit("connector-state");
    reveal_strlit("exit-state");
    reveal_strlit("connector-capacity-state");
    reveal_strlit("exit-capacity-state");
    reveal_strlit("gate");
    reveal_strlit("gate-state");
    reveal_strlit("gate-capacity-state");
    reveal_strlit("agents");
    reveal_strlit("message");
    reveal_strlit("countermeasure");
    reveal_strlit("walking-profile");
    assert("walking-profile"@.len() == 15 && "walking-profile"@[0] == 'w');
    assert("scenario"@.len() == 8 && "scenario"@[0] == 's');
    assert("seed"@.len() == 4 && "seed"@[0] == 's');
    assert("duration"@.len() == 8 && "duration"@[0] == 'd');
    assert("timestep"@.len() == 8 && "timestep"@[0] == 't');
    assert("surface"@.len() == 7 && "surface"@[0] == 's');
    assert("obstacle"@.len() == 8 && "obstacle"@[0] == 'o');
    assert("waypoint"@.len() == 8 && "waypoint"@[0] == 'w');
    assert("exit"@.len() == 4 && "exit"@[0] == 'e');
    assert("stair"@.len() == 5 && "stair"@[0] == 's');
    assert("ramp"@.len() == 4 && "ramp"@[0] == 'r');
    assert("escalator"@.len() == 9 && "escalator"@[0] == 'e');
    assert("lift"@.len() == 4 && "lift"@[0] == 'l');
    assert("connector-state"@.len() == 15 && "connector-state"@[0] == 'c');
    assert("exit-state"@.len() == 10 && "exit-state"@[0] == 'e');
    assert("connector-capacity-state"@.len() == 24 && "connector-capacity-state"@[0] == 'c');
    assert("exit-capacity-state"@.len() == 19 && "exit-capacity-state"@[0] == 'e');
    assert("gate"@.len() == 4 && "gate"@[0] == 'g');
    assert("gate-state"@.len() == 10 && "gate-state"@[0] == 'g');
    assert("gate-capacity-state"@.len() == 19 && "gate-capacity-state"@[0] == 'g');
    assert("agents"@.len() == 6 && "agents"@[0] == 'a');
    assert("message"@.len() == 7 && "message"@[0] == 'm');
    assert("countermeasure"@.len() == 14 && "countermeasure"@[0] == 'c');
    match d {
        Declaration::Connector(c) => {
            match c {
                ConnectorDecl::Stair { .. } => {},
                ConnectorDecl::Ramp { .. } => {},
                ConnectorDecl::Escalator { .. } => {},
                ConnectorDecl::Lift { .. } => {},
            }
        },
        _ => {},
    }
}

/// A line rejected in a prefix is the first rejected line of the whole.
proof fn lemma_first_rejected_prefix(lines: Seq<Seq<char>>, j: int, k: int)
    requires
        0 <= j <= lines.len(),
        first_rejected(lines.take(j)) == Some(k),
    ensures
        first_rejected(lines) == Some(k),
    decreases lines.len() - j,
{
    if j < lines.len() {
        assert(lines.take(j + 1).drop_last() =~= lines.take(j));
        lemma_first_rejected_prefix(lines, j + 1, k);
    } else {
        assert(lines.take(j) =~= lines);
    }
}

/// Whether `d` is a walking profile declared with `id`.
pub open spec fn declares_profile(d: Declaration, id: Seq<char>) -> bool {
    d matches Declaration::WalkingProfile(w) && w.id@ == id
}

/// The index of the first walking profile declared with `id`, at `from` or
/// after.
pub open spec fn profile_index(decls: Seq<Declaration>, id: Seq<char>, from: int) -> Option<int>
    decreases decls.len() - from,
{
    if from < 0 || from >= decls.len() {
        None
    } else if declares_profile(decls[from], id) {
        Some(from)
    } else {
        profile_index(decls, id, from + 1)
    }
}

/// `v` is the quantity `q`, by value.
pub open spec fn same_quantity(v: Quantity, q: Quantity) -> bool {
    v.number@ == q.number@ && v.milli == q.milli
}

impl ParsedScenario {
    /// The walking speed of an agent group: the speed its line gives, or
    /// the speed of the first walking profile declared with the id it
    /// names; `None` when no walking profile has that id.
    pub fn agent_speed(&self, group: &AgentsDecl) -> (r: Option<Quantity>)
        ensures
            match group.speed {
                AgentSpeed::Given(q) => r matches Some(v) && same_quantity(v, q),
                AgentSpeed::Profile(n) => match profile_index(self.declarations@, n@, 0) {
                    None => r is None,
                    Some(i) => r matches Some(v) && (self.declarations@[i] matches Declaration::WalkingProfile(w)
                        && same_quantity(v, w.speed)),
                },
            },
    {
        match &group.speed {
            AgentSpeed::Given(q) => Some(copy_quantity(q)),
            AgentSpeed::Profile(n) => {
                let mut i: usize = 0;
                while i < self.declarations.len()
                    invariant
                        i <= self.declarations@.len(),
                        group.speed == AgentSpeed::Profile(*n),
                        profile_index(self.declarations@, n@, 0) == profile_index(self.declarations@, n@, i as int),
                    decreases self.declarations@.len() - i,
                {
                    if let Declaration::WalkingProfile(w) = &self.declarations[i] {
                        if text_eq(w.id.as_str(), n.as_str()) {
                            return Some(copy_quantity(&w.speed));
                        }
                    }
                    i += 1;
                }
                None
            },
        }
    }
}

fn copy_quantity(q: &Quantity) -> (r: Quantity)
    ensures
        r.number@ == q.number@,
        r.milli == q.milli,
{
    Quantity { number: owned(q.number.as_str()), milli: q.milli }
}

/// Parse a scenario source.
pub fn parse(source: &str) -> (r: Result<ParsedScenario, ParseError>)
    ensures
        r is Ok <==> source_accepted(source_lines(source@)),
        r matches Ok(p) ==> parsed_is(p, declaration_lines(source_lines(source@))),
        r matches Err(e) ==> parse_error_is(e, source_lines(source@)),
{
    let lines = split_lines(source);
    let ghost all = source_lines(source@);
    let mut name: Option<String> = None;
    let mut seed: Option<u64> = None;
    let mut duration: Option<Quantity> = None;
    let mut timestep: Option<Quantity> = None;
    let mut declarations: Vec<Declaration> = Vec::new();
    let mut k: usize = 0;
    while k < lines.len()
        invariant
            all == source_lines(source@),
            lines@.len() == all.len(),
            forall|q: int| 0 <= q < lines@.len() ==> (#[trigger] lines@[q])@ == all[q],
            k <= lines@.len(),
            first_rejected(all.take(k as int)) is None,
            ({
                let d = declaration_lines(all.take(k as int));
                &&& declarations@.len() == d.len()
                &&& forall|i: int| 0 <= i < d.len() ==> declaration_is(#[trigger] declarations@[i], d[i])
                &&& forall|i: int| 0 <= i < d.len() ==> d[i].len() > 0
                &&& name is Some <==> declares(d, "scenario"@)
                &&& seed is Some <==> declares(d, "seed"@)
                &&& duration is Some <==> declares(d, "duration"@)
                &&& timestep is Some <==> declares(d, "timestep"@)
                &&& forall|i: int|
                    0 <= i < d.len() && #[trigger] d[i][0] == "scenario"@ ==> (name matches Some(n)
                        && n@ == d[i][1])
                &&& forall|i: int|
                    0 <= i < d.len() && #[trigger] d[i][0] == "seed"@ ==> (seed matches Some(v)
                        && unsigned_literal(d[i][1]) == Some(v as nat))
                &&& forall|i: int|
                    0 <= i < d.len() && #[trigger] d[i][0] == "duration"@ ==> (duration matches Some(
                        q,
                    ) && duration_is(q, d[i][1]))
                &&& forall|i: int|
                    0 <= i < d.len() && #[trigger] d[i][0] == "timestep"@ ==> (timestep matches Some(
                        q,
                    ) && duration_is(q, d[i][1]))
            }),
        decreases lines@.len() - k,
    {
        let ghost prev = all.take(k as int);
        let ghost d0 = declaration_lines(prev);
        proof {
            assert(all.take(k + 1).drop_last() =~= prev);
            assert(all.take(k + 1).last() == all[k as int]);
        }
        let line = k + 1;
        let raw = strip_comment(&lines[k]);
        let tokens = match tokenize_chars(&raw) {
            Ok(t) => t,
            Err(m) => {
                proof {
                    assert(lines@[k as int]@ == all[k as int]);
                    assert(line_tokens(all[k as int]) == Err::<Seq<Seq<char>>, Seq<char>>(m@));
                    assert(line_rejected(prev, all[k as int]));
                    assert(first_rejected(all.take(k + 1)) == Some(k as int));
                    lemma_first_rejected_prefix(all, k + 1, k as int);
                }
                return Err(error(line, m));
            },
        };
        proof {
            crate::parser::lemma_token_views(tokens@);
        }
        if tokens.len() > 0 {
            let declaration = match parse_declaration(
                line,
                &tokens,
                name.is_some(),
                seed.is_some(),
                duration.is_some(),
                timestep.is_some(),
            ) {
                Ok(d) => d,
                Err(e) => {
                    proof {
                        assert(first_rejected(all.take(k + 1)) == Some(k as int));
                        lemma_first_rejected_prefix(all, k + 1, k as int);
                        assert(line_tokens(all[k as int]) == Ok::<Seq<Seq<char>>, Seq<char>>(
                            string_views(tokens@),
                        ));
                    }
                    return Err(e);
                },
            };
            let ghost t = string_views(tokens@);
            proof {
                lemma_single_keywords(declaration, t);
                lemma_declares_push(d0, t, "scenario"@);
                lemma_declares_push(d0, t, "seed"@);
                lemma_declares_push(d0, t, "duration"@);
                lemma_declares_push(d0, t, "timestep"@);
                assert(declaration_lines(all.take(k + 1)) == d0.push(t));
            }
            match &declaration {
                Declaration::Scenario(n) => {
                    name = Some(owned(n.as_str()));
                },
                Declaration::Seed(v) => {
                    seed = Some(*v);
                },
                Declaration::Duration(q) => {
                    duration = Some(copy_quantity(q));
                },
                Declaration::Timestep(q) => {
                    timestep = Some(copy_quantity(q));
                },
                _ => {},
            }
            declarations.push(declaration);
            proof {
                let d1 = d0.push(t);
                assert forall|i: int| 0 <= i < d1.len() implies declaration_is(
                    #[trigger] declarations@[i],
                    d1[i],
                ) by {
                    if i < d0.len() {
                        assert(d1[i] == d0[i]);
                    }
                }
            }
        } else {
            proof {
                assert(declaration_lines(all.take(k + 1)) == d0);
            }
        }
        k += 1;
    }
    proof {
        assert(all.take(lines@.len() as int) =~= all);
    }
    let last_line: usize = if lines.len() == 0 { 1 } else { lines.len() };
    let name = match name {
        Some(n) => n,
        None => return Err(error(last_line, owned("missing `scenario` declaration"))),
    };
    let seed = match seed {
        Some(v) => v,
        None => return Err(error(last_line, owned("missing `seed` declaration"))),
    };
    let duration = match duration {
        Some(q) => q,
        None => return Err(error(last_line, owned("missing `duration` declaration"))),
    };
    let timestep = match timestep {
        Some(q) => q,
        None => return Err(error(last_line, owned("missing `timestep` declaration"))),
    };
    Ok(ParsedScenario { name, seed, duration, timestep, declarations })
}

/// Declarations are read one per line, in source order: one more line that
/// holds a declaration adds that line's tokens after those of the lines
/// before it, a line without one adds nothing, and the first rejected line
/// stays the first whatever lines follow it.
pub proof fn lemma_declarations_in_source_order(lines: Seq<Seq<char>>, l: Seq<char>)
    ensures
        line_tokens(l) matches Ok(t) ==> (t.len() > 0 ==> declaration_lines(lines.push(l))
            == declaration_lines(lines).push(t)),
        (line_tokens(l) is Err || line_tokens(l) == Ok::<Seq<Seq<char>>, Seq<char>>(Seq::empty()))
            ==> declaration_lines(lines.push(l)) == declaration_lines(lines),
        first_rejected(lines) matches Some(k) ==> first_rejected(lines.push(l)) == Some(k),
        first_rejected(lines) is None ==> (first_rejected(lines.push(l)) is Some <==> line_rejected(lines, l)),
        first_rejected(lines) is None && line_rejected(lines, l) ==> first_rejected(lines.push(l)) == Some(
            lines.len() as int,
        ),
{
    assert(lines.push(l).drop_last() =~= lines);
    assert(lines.push(l).last() == l);
    if let Ok(t) = line_tokens(l) {
        if t.len() == 0 {
            assert(t =~= Seq::<Seq<char>>::empty());
        }
    }
}

/// The keyword of one of the four declarations a source holds once.
pub open spec fn single_keyword(k: Seq<char>) -> bool {
    k == "scenario"@ || k == "seed"@ || k == "duration"@ || k == "timestep"@
}

/// What a parsed source holds: one declaration per declaration line, in
/// source order, and each of the `scenario`, `seed`, `duration` and
/// `timestep` declarations exactly once.
pub proof fn lemma_parsed_declarations(lines: Seq<Seq<char>>, p: ParsedScenario)
    requires
        source_accepted(lines),
        parsed_is(p, declaration_lines(lines)),
    ensures
        p.declarations@.len() == declaration_lines(lines).len(),
        forall|i: int|
            0 <= i < declaration_lines(lines).len() ==> declaration_is(
                #[trigger] p.declarations@[i],
                declaration_lines(lines)[i],
            ),
        forall|i: int, j: int|
            0 <= i < j < declaration_lines(lines).len() && single_keyword(#[trigger] declaration_lines(lines)[i][0])
                ==> #[trigger] declaration_lines(lines)[j][0] != declaration_lines(lines)[i][0],
        exists|i: int| 0 <= i < p.declarations@.len() && #[trigger] p.declarations@[i] is Scenario,
        exists|i: int| 0 <= i < p.declarations@.len() && #[trigger] p.declarations@[i] is Seed,
        exists|i: int| 0 <= i < p.declarations@.len() && #[trigger] p.declarations@[i] is Duration,
        exists|i: int| 0 <= i < p.declarations@.len() && #[trigger] p.declarations@[i] is Timestep,
        forall|i: int, j: int|
            0 <= i < p.declarations@.len() && 0 <= j < p.declarations@.len() && (#[trigger] p.declarations@[i] is Scenario
                && #[trigger] p.declarations@[j] is Scenario || p.declarations@[i] is Seed && p.declarations@[j] is Seed
                || p.declarations@[i] is Duration && p.declarations@[j] is Duration || p.declarations@[i] is Timestep
                && p.declarations@[j] is Timestep) ==> i == j,
{
    let d = declaration_lines(lines);
    let ds = p.declarations@;
    crate::reformat::lemma_declarations_accepted(lines);
    crate::canonical::lemma_keyword_letters();
    assert forall|i: int, j: int| 0 <= i < j < d.len() && single_keyword(#[trigger] d[i][0]) implies #[trigger] d[j][0]
        != d[i][0] by {
        if d[j][0] == d[i][0] {
            assert(crate::reformat::accepted_after(d.take(j), d[j]));
            assert(d.take(j)[i] == d[i]);
            assert(declares(d.take(j), d[i][0]));
        }
    }
    assert forall|i: int| 0 <= i < d.len() implies (d[i][0] == "scenario"@ <==> #[trigger] ds[i] is Scenario) && (
    d[i][0] == "seed"@ <==> ds[i] is Seed) && (d[i][0] == "duration"@ <==> ds[i] is Duration) && (d[i][0]
        == "timestep"@ <==> ds[i] is Timestep) by {
        lemma_single_keywords(ds[i], d[i]);
    }
    let i0 = choose|i: int| 0 <= i < d.len() && d[i].len() > 0 && #[trigger] d[i][0] == "scenario"@;
    assert(ds[i0] is Scenario);
    let i1 = choose|i: int| 0 <= i < d.len() && d[i].len() > 0 && #[trigger] d[i][0] == "seed"@;
    assert(ds[i1] is Seed);
    let i2 = choose|i: int| 0 <= i < d.len() && d[i].len() > 0 && #[trigger] d[i][0] == "duration"@;
    assert(ds[i2] is Duration);
    let i3 = choose|i: int| 0 <= i < d.len() && d[i].len() > 0 && #[trigger] d[i][0] == "timestep"@;
    assert(ds[i3] is Timestep);
    assert forall|i: int, j: int|
        0 <= i < ds.len() && 0 <= j < ds.len() && (#[trigger] ds[i] is Scenario && #[trigger] ds[j] is Scenario
            || ds[i] is Seed && ds[j] is Seed || ds[i] is Duration && ds[j] is Duration || ds[i] is Timestep
            && ds[j] is Timestep) implies i == j by {
        if i < j {
            assert(single_keyword(d[i][0]));
            assert(d[j][0] != d[i][0]);
        } else if j < i {
            assert(single_keyword(d[j][0]));
            assert(d[i][0] != d[j][0]);
        }
    }
}

proof fn lemma_quiet_line_declarations(a: Seq<Seq<char>>, c: Seq<char>, b: Seq<Seq<char>>)
    requires
        line_tokens(c) == Ok::<Seq<Seq<char>>, Seq<char>>(Seq::empty()),
    ensures
        declaration_lines(a.push(c) + b) == declaration_lines(a + b),
    decreases b.len(),
{
    if b.len() == 0 {
        assert(a.push(c) + b =~= a.push(c));
        assert(a + b =~= a);
        assert(a.push(c).drop_last() =~= a);
    } else {
        lemma_quiet_line_declarations(a, c, b.drop_last());
        assert((a.push(c) + b).drop_last() =~= a.push(c) + b.drop_last());
        assert((a + b).drop_last() =~= a + b.drop_last());
    }
}

proof fn lemma_quiet_line_rejections(a: Seq<Seq<char>>, c: Seq<char>, b: Seq<Seq<char>>)
    requires
        line_tokens(c) == Ok::<Seq<Seq<char>>, Seq<char>>(Seq::empty()),
    ensures
        (first_rejected(a.push(c) + b) is None) == (first_rejected(a + b) is None),
    decreases b.len(),
{
    if b.len() == 0 {
        assert(a.push(c) + b =~= a.push(c));
        assert(a + b =~= a);
        assert(a.push(c).drop_last() =~= a);
    } else {
        lemma_quiet_line_rejections(a, c, b.drop_last());
        lemma_quiet_line_declarations(a, c, b.drop_last());
        assert((a.push(c) + b).drop_last() =~= a.push(c) + b.drop_last());
        assert((a + b).drop_last() =~= a + b.drop_last());
    }
}

/// Blank lines and comment lines carry no meaning: inserting a line without
/// tokens anywhere in a source changes neither whether it parses nor the
/// declarations it denotes.
pub proof fn lemma_quiet_lines_are_ignored(lines: Seq<Seq<char>>, k: int, c: Seq<char>)
    requires
        0 <= k <= lines.len(),
        line_tokens(c) == Ok::<Seq<Seq<char>>, Seq<char>>(Seq::empty()),
    ensures
        declaration_lines(lines.insert(k, c)) == declaration_lines(lines),
        source_accepted(lines.insert(k, c)) == source_accepted(lines),
{
    let a = lines.take(k);
    let b = lines.skip(k);
    assert(lines.insert(k, c) =~= a.push(c) + b);
    assert(lines =~= a + b);
    lemma_quiet_line_declarations(a, c, b);
    lemma_quiet_line_rejections(a, c, b);
}

/// Reading the source word of a connector kind gives the kind back.
pub proof fn lemma_connector_kind_word_round_trip(k: ConnectorKind)
    ensures
        connector_kind_of(crate::model::connector_kind_word(k)) == Some(k),
{
    reveal_strlit("stair");
    reveal_strlit("ramp");
    reveal_strlit("escalator");
    reveal_strlit("lift");
    assert("stair"@.len() == 5 && "ramp"@.len() == 4 && "escalator"@.len() == 9 && "lift"@.len() == 4);
    assert("ramp"@[0] == 'r' && "lift"@[0] == 'l');
}

/// Reading the source word of an information source gives the source back.
pub proof fn lemma_information_source_word_round_trip(s: InformationSource)
    ensures
        information_source_of(crate::model::information_source_word(s)) == Some(s),
{
    reveal_strlit("peer");
    reveal_strlit("official");
    reveal_strlit("signage");
    reveal_strlit("staff");
    assert("peer"@.len() == 4 && "official"@.len() == 8 && "signage"@.len() == 7 && "staff"@.len() == 5);
}

/// `open` and `closed` read as the two availability states.
pub proof fn lemma_availability_words()
    ensures
        availability("open"@) == Some(true),
        availability("closed"@) == Some(false),
{
    reveal_strlit("open");
    reveal_strlit("closed");
    assert("open"@.len() == 4 && "closed"@.len() == 6);
}

} // verus!
