//! Canonical lines read back: the line the formatter writes for a parsed
//! declaration tokenizes to canonical tokens that the parser accepts, and
//! whatever those tokens denote is written as the same line again.

use vstd::prelude::*;
use crate::formatter::{capacity_change_text, walking_profile_text, sample_text, countermeasure_text, countermeasure_core_text, gate_text, message_core_text, message_text, proposition_text, connector_text, declaration_text, ends_text, option_text, section_of, duration_text, quantity_text, state_change_text, state_word};
use crate::lexer::{before_comment, is_delimiter, lemma_prefixed_concat, lemma_tokens_of_separated_words, plain_word, prefixed, separator};
use crate::parser::line_tokens;
use crate::agent_line::lemma_agents_line;
use crate::reformat::single_line;
use crate::literal::{digit_value, digits_value, unsigned_literal};
use crate::text::{decimal, digit_char, is_ascii_digit};
use crate::model::{information_source_word, InformationSource, Proposition};
use crate::syntax::{
    claim_is, countermeasure_is, countermeasure_ok, information_source_of, message_is, message_ok, CountermeasureDecl,
    MessageDecl, sampling_key, string_option_is, capacity_change_ok, capacity_change_is, speed_is,
    walking_profile_ok, walking_profile_is, CapacityChangeDecl, WalkingProfileDecl,
    availability, declaration_accepted, declaration_is, duration_is, ends_with, state_change_is, exit_ok, state_change_ok, waypoint_ok, gate_ok, obstacle_ok, surface_ok, unit_is, without_suffix, Declaration, GateDecl,
    connector_decl_ends, connector_is, connector_options, escalator_ok, length_is, lift_ok, quantity_option_is, rate_is, walkway_ok, connector_options_from, ConnectorDecl, ConnectorEnds, ends_is, ends_ok, final_clearance, length_ok, rate_ok, ExitDecl, ObstacleDecl, Quantity, StateChangeDecl, SurfaceDecl, WaypointDecl,
};

verus! {

/// A token the canonical form can write bare: a plain word without `#`.
pub open spec fn canonical_word(w: Seq<char>) -> bool {
    plain_word(w) && forall|i: int| 0 <= i < w.len() ==> #[trigger] w[i] != '#'
}

/// Every token is a canonical word.
pub open spec fn canonical_tokens(tv: Seq<Seq<char>>) -> bool {
    forall|i: int| 0 <= i < tv.len() ==> canonical_word(#[trigger] tv[i])
}

/// The canonical line of `d` reads back as the tokens `u`: the line
/// tokenizes to `u`, the parser accepts `u` after the header, and every
/// declaration that `u` denotes is written as the same line, in the same
/// section.
pub open spec fn reads_back_as(d: Declaration, u: Seq<Seq<char>>) -> bool {
    &&& single_line(declaration_text(d))
    &&& line_tokens(declaration_text(d)) == Ok::<Seq<Seq<char>>, Seq<char>>(u)
    &&& u.len() > 0
    &&& declaration_accepted(u, true, true, true, true)
    &&& forall|e: Declaration| #[trigger] declaration_is(e, u) ==> declaration_text(e) == declaration_text(d)
        && section_of(e) == section_of(d)
}

/// The lengths and first letters of the keywords, which tell them apart.
pub(crate) proof fn lemma_keyword_letters()
    ensures
        "scenario"@.len() == 8 && "scenario"@[0] == 's',
        "seed"@.len() == 4 && "seed"@[0] == 's',
        "duration"@.len() == 8 && "duration"@[0] == 'd',
        "timestep"@.len() == 8 && "timestep"@[0] == 't',
        "surface"@.len() == 7 && "surface"@[0] == 's',
        "obstacle"@.len() == 8 && "obstacle"@[0] == 'o',
        "waypoint"@.len() == 8 && "waypoint"@[0] == 'w',
        "exit"@.len() == 4 && "exit"@[0] == 'e',
        "stair"@.len() == 5 && "stair"@[0] == 's',
        "ramp"@.len() == 4 && "ramp"@[0] == 'r',
        "escalator"@.len() == 9 && "escalator"@[0] == 'e',
        "lift"@.len() == 4 && "lift"@[0] == 'l',
        "connector-state"@.len() == 15 && "connector-state"@[0] == 'c',
        "exit-state"@.len() == 10 && "exit-state"@[0] == 'e',
        "gate-state"@.len() == 10 && "gate-state"@[0] == 'g',
        "connector-capacity-state"@.len() == 24 && "connector-capacity-state"@[0] == 'c',
        "exit-capacity-state"@.len() == 19 && "exit-capacity-state"@[0] == 'e',
        "gate-capacity-state"@.len() == 19 && "gate-capacity-state"@[0] == 'g',
        "gate"@.len() == 4 && "gate"@[0] == 'g',
        "agents"@.len() == 6 && "agents"@[0] == 'a',
        "message"@.len() == 7 && "message"@[0] == 'm',
        "countermeasure"@.len() == 14 && "countermeasure"@[0] == 'c',
        "walking-profile"@.len() == 15 && "walking-profile"@[0] == 'w',
{
    reveal_strlit("scenario");
    reveal_strlit("seed");
    reveal_strlit("duration");
    reveal_strlit("timestep");
    reveal_strlit("surface");
    reveal_strlit("obstacle");
    reveal_strlit("waypoint");
    reveal_strlit("exit");
    reveal_strlit("stair");
    reveal_strlit("ramp");
    reveal_strlit("escalator");
    reveal_strlit("lift");
    reveal_strlit("connector-state");
    reveal_strlit("exit-state");
    reveal_strlit("gate-state");
    reveal_strlit("connector-capacity-state");
    reveal_strlit("exit-capacity-state");
    reveal_strlit("gate-capacity-state");
    reveal_strlit("gate");
    reveal_strlit("agents");
    reveal_strlit("message");
    reveal_strlit("countermeasure");
    reveal_strlit("walking-profile");
}

/// A body line is accepted by its own kind's rule, whatever the header held.
proof fn lemma_body_accepted(tv: Seq<Seq<char>>)
    requires
        tv.len() > 0,
        (tv[0] == "surface"@ && surface_ok(tv)) || (tv[0] == "obstacle"@ && obstacle_ok(tv)) || (tv[0]
            == "waypoint"@ && waypoint_ok(tv)) || (tv[0] == "exit"@ && exit_ok(tv)) || (tv[0]
            == "connector-state"@ && state_change_ok(tv, "connector"@)) || (tv[0] == "exit-state"@
            && state_change_ok(tv, "exit"@)) || (tv[0] == "gate"@ && gate_ok(tv)) || (tv[0] == "stair"@
            && walkway_ok(tv)) || (tv[0] == "ramp"@ && walkway_ok(tv)) || (tv[0] == "escalator"@
            && escalator_ok(tv)) || (tv[0] == "lift"@ && lift_ok(tv)) || (tv[0] == "gate-state"@
            && state_change_ok(tv, "gate"@)) || (tv[0] == "connector-capacity-state"@ && capacity_change_ok(
            tv,
            "connector"@,
        )) || (tv[0] == "exit-capacity-state"@ && capacity_change_ok(tv, "exit"@)) || (tv[0]
            == "gate-capacity-state"@ && capacity_change_ok(tv, "gate"@)) || (tv[0] == "walking-profile"@
            && walking_profile_ok(tv)),
    ensures
        declaration_accepted(tv, true, true, true, true),
{
    lemma_keyword_letters();
}

/// A line without `#` has no comment to cut.
pub(crate) proof fn lemma_before_comment_without_hash(l: Seq<char>)
    requires
        forall|i: int| 0 <= i < l.len() ==> #[trigger] l[i] != '#',
    ensures
        before_comment(l) == l,
    decreases l.len(),
{
    if l.len() > 0 {
        assert forall|i: int| 0 <= i < l.drop_last().len() implies #[trigger] l.drop_last()[i] != '#' by {
            assert(l.drop_last()[i] == l[i]);
        }
        lemma_before_comment_without_hash(l.drop_last());
        assert(l[l.len() - 1] != '#');
        assert(l.drop_last().push(l.last()) =~= l);
    }
}

/// A quantity's text with its unit is its token again.
pub(crate) proof fn lemma_unit_token(q: Quantity, t: Seq<char>, suffix: Seq<char>)
    requires
        unit_is(q, t, suffix),
    ensures
        quantity_text(q, suffix) == t,
{
    assert(without_suffix(t, suffix) + suffix =~= t);
}

/// Two quantities read from the same token are written alike.
pub(crate) proof fn lemma_same_unit_text(q: Quantity, r: Quantity, t: Seq<char>, suffix: Seq<char>)
    requires
        unit_is(q, t, suffix),
        unit_is(r, t, suffix),
    ensures
        quantity_text(q, suffix) == quantity_text(r, suffix),
{
    lemma_unit_token(q, t, suffix);
    lemma_unit_token(r, t, suffix);
}

/// Separator text that the canonical form writes: blanks, parentheses
/// and commas, nothing else.
pub open spec fn inline_separator(s: Seq<char>) -> bool {
    forall|i: int| 0 <= i < s.len() ==> #[trigger] s[i] == ' ' || s[i] == '(' || s[i] == ')' || s[i] == ','
}

/// A character that neither starts a comment nor ends a line.
pub open spec fn inline_char(c: char) -> bool {
    c != '#' && c != '\n' && c != '\r'
}

proof fn lemma_inline_separator(s: Seq<char>)
    requires
        inline_separator(s),
    ensures
        separator(s),
        forall|i: int| 0 <= i < s.len() ==> inline_char(#[trigger] s[i]),
{
    assert forall|i: int| 0 <= i < s.len() implies is_delimiter(#[trigger] s[i]) && inline_char(s[i]) by {
        assert(s[i] == ' ' || s[i] == '(' || s[i] == ')' || s[i] == ',');
    }
}

proof fn lemma_canonical_word_chars(w: Seq<char>)
    requires
        canonical_word(w),
    ensures
        forall|i: int| 0 <= i < w.len() ==> inline_char(#[trigger] w[i]),
{
    assert forall|i: int| 0 <= i < w.len() implies inline_char(#[trigger] w[i]) by {
        assert(!is_delimiter(w[i]));
        assert(w[i] != '#');
    }
}

proof fn lemma_prefixed_inline(words: Seq<Seq<char>>, seps: Seq<Seq<char>>)
    requires
        words.len() == seps.len(),
        canonical_tokens(words),
        forall|i: int| 0 <= i < seps.len() ==> inline_separator(#[trigger] seps[i]),
    ensures
        forall|i: int| 0 <= i < prefixed(words, seps).len() ==> inline_char(#[trigger] prefixed(words, seps)[i]),
    decreases words.len(),
{
    if words.len() > 0 {
        let w0 = words.drop_last();
        let s0 = seps.drop_last();
        assert forall|i: int| 0 <= i < w0.len() implies canonical_word(#[trigger] w0[i]) by {
            assert(w0[i] == words[i]);
        }
        assert forall|i: int| 0 <= i < s0.len() implies inline_separator(#[trigger] s0[i]) by {
            assert(s0[i] == seps[i]);
        }
        lemma_prefixed_inline(w0, s0);
        let a = prefixed(w0, s0);
        let w = words.last();
        let sep = seps.last();
        assert(canonical_word(words[words.len() - 1]));
        assert(inline_separator(seps[seps.len() - 1]));
        lemma_canonical_word_chars(w);
        lemma_inline_separator(sep);
        assert(prefixed(words, seps) == a + sep + w);
        assert forall|i: int| 0 <= i < (a + sep + w).len() implies inline_char(#[trigger] (a + sep + w)[i]) by {
            if i < a.len() {
                assert((a + sep + w)[i] == a[i]);
            } else if i < a.len() + sep.len() {
                assert((a + sep + w)[i] == sep[i - a.len()]);
            } else {
                assert((a + sep + w)[i] == w[i - a.len() - sep.len()]);
            }
        }
    }
}

/// Canonical words, each after its separator, then a closing separator,
/// make one line that reads back as exactly those words.
pub(crate) proof fn lemma_line_tokens_of_prefixed(words: Seq<Seq<char>>, seps: Seq<Seq<char>>, tail: Seq<char>)
    requires
        words.len() == seps.len(),
        canonical_tokens(words),
        forall|i: int| 0 <= i < seps.len() ==> inline_separator(#[trigger] seps[i]),
        forall|i: int| 1 <= i < seps.len() ==> (#[trigger] seps[i]).len() > 0,
        inline_separator(tail),
    ensures
        line_tokens(prefixed(words, seps) + tail) == Ok::<Seq<Seq<char>>, Seq<char>>(words),
        single_line(prefixed(words, seps) + tail),
{
    let text = prefixed(words, seps);
    lemma_prefixed_inline(words, seps);
    lemma_inline_separator(tail);
    assert forall|i: int| 0 <= i < (text + tail).len() implies inline_char(#[trigger] (text + tail)[i]) by {
        if i < text.len() {
            assert((text + tail)[i] == text[i]);
        } else {
            assert((text + tail)[i] == tail[i - text.len()]);
        }
    }
    assert forall|i: int| 0 <= i < (text + tail).len() implies #[trigger] (text + tail)[i] != '#' by {
        assert(inline_char((text + tail)[i]));
    }
    lemma_before_comment_without_hash(text + tail);
    assert forall|i: int| 0 <= i < words.len() implies plain_word(#[trigger] words[i]) by {
        assert(canonical_word(words[i]));
    }
    assert forall|i: int| 0 <= i < seps.len() implies separator(#[trigger] seps[i]) by {
        lemma_inline_separator(seps[i]);
    }
    lemma_tokens_of_separated_words(words, seps, tail);
    assert forall|i: int| 0 <= i < (text + tail).len() implies #[trigger] (text + tail)[i] != '\n' by {
        assert(inline_char((text + tail)[i]));
    }
    if (text + tail).len() > 0 {
        assert(inline_char((text + tail)[(text + tail).len() - 1]));
    }
}

/// The separators the canonical form writes.
pub(crate) proof fn lemma_separators()
    ensures
        inline_separator(""@),
        inline_separator(" "@),
        inline_separator(" ("@),
        inline_separator(", "@),
        inline_separator(") "@),
        inline_separator(")"@),
        ""@.len() == 0 && " "@.len() > 0 && " ("@.len() > 0 && ", "@.len() > 0 && ") "@.len() > 0,
{
    reveal_strlit("");
    reveal_strlit(" ");
    reveal_strlit(" (");
    reveal_strlit(", ");
    reveal_strlit(") ");
    reveal_strlit(")");
}

/// One more word after its separator.
pub(crate) proof fn lemma_prefixed_step(words: Seq<Seq<char>>, seps: Seq<Seq<char>>, k: int)
    requires
        words.len() == seps.len(),
        0 <= k < words.len(),
    ensures
        prefixed(words.take(k + 1), seps.take(k + 1)) == prefixed(words.take(k), seps.take(k)) + seps[k]
            + words[k],
{
    assert(words.take(k + 1).drop_last() =~= words.take(k));
    assert(seps.take(k + 1).drop_last() =~= seps.take(k));
}

/// The text of the words after their separators, one word at a time.
pub(crate) proof fn lemma_prefixed_unrolled(words: Seq<Seq<char>>, seps: Seq<Seq<char>>)
    requires
        words.len() == seps.len(),
    ensures
        prefixed(words.take(0), seps.take(0)) == Seq::<char>::empty(),
        prefixed(words.take(words.len() as int), seps.take(words.len() as int)) == prefixed(words, seps),
{
    assert(words.take(0).len() == 0);
    assert(words.take(words.len() as int) =~= words);
    assert(seps.take(words.len() as int) =~= seps);
}

/// The text of a `surface` line as its tokens, each after its separator.
#[verifier::spinoff_prover]
#[verifier::rlimit(50)]
proof fn lemma_surface_text(s: SurfaceDecl, tv: Seq<Seq<char>>, seps: Seq<Seq<char>>)
    requires
        tv.len() == 9,
        tv[0] == "surface"@,
        tv[1] == s.id@,
        tv[2] == "at"@,
        tv[3] == quantity_text(s.origin.x, "m"@),
        tv[4] == quantity_text(s.origin.y, "m"@),
        tv[5] == quantity_text(s.origin.z, "m"@),
        tv[6] == "size"@,
        tv[7] == quantity_text(s.width, "m"@),
        tv[8] == quantity_text(s.depth, "m"@),
        seps == seq![""@, " "@, " "@, " ("@, ", "@, ", "@, ") "@, " ("@, ", "@],
    ensures
        declaration_text(Declaration::Surface(s)) == prefixed(tv, seps) + ")"@,
{
    lemma_prefixed_unrolled(tv, seps);
    lemma_prefixed_step(tv, seps, 0);
    lemma_prefixed_step(tv, seps, 1);
    lemma_prefixed_step(tv, seps, 2);
    lemma_prefixed_step(tv, seps, 3);
    lemma_prefixed_step(tv, seps, 4);
    lemma_prefixed_step(tv, seps, 5);
    lemma_prefixed_step(tv, seps, 6);
    lemma_prefixed_step(tv, seps, 7);
    lemma_prefixed_step(tv, seps, 8);
    reveal_strlit("surface ");
    reveal_strlit("surface");
    reveal_strlit("");
    reveal_strlit(" ");
    reveal_strlit(" at ");
    reveal_strlit("at");
    reveal_strlit(" (");
    reveal_strlit("(");
    reveal_strlit(", ");
    reveal_strlit(")");
    reveal_strlit(") ");
    reveal_strlit(" size (");
    reveal_strlit("size");
    assert(declaration_text(Declaration::Surface(s)) =~= prefixed(tv, seps) + ")"@);
}

/// The canonical line of a `surface` declaration reads back as its tokens,
/// and whatever those tokens denote is written as the same line.
pub proof fn lemma_surface_line(s: SurfaceDecl, tv: Seq<Seq<char>>)
    requires
        surface_ok(tv),
        declaration_is(Declaration::Surface(s), tv),
        canonical_tokens(tv),
    ensures
        reads_back_as(Declaration::Surface(s), tv),
{
    reveal_strlit("m");
    assert("m"@ == crate::syntax::meters());
    lemma_keyword_letters();
    lemma_separators();
    let seps = seq![""@, " "@, " "@, " ("@, ", "@, ", "@, ") "@, " ("@, ", "@];
    lemma_unit_token(s.origin.x, tv[3], "m"@);
    lemma_unit_token(s.origin.y, tv[4], "m"@);
    lemma_unit_token(s.origin.z, tv[5], "m"@);
    lemma_unit_token(s.width, tv[7], "m"@);
    lemma_unit_token(s.depth, tv[8], "m"@);
    lemma_surface_text(s, tv, seps);
    assert forall|i: int| 0 <= i < seps.len() implies inline_separator(#[trigger] seps[i]) by {}
    assert forall|i: int| 1 <= i < seps.len() implies (#[trigger] seps[i]).len() > 0 by {}
    lemma_line_tokens_of_prefixed(tv, seps, ")"@);
    lemma_body_accepted(tv);
    assert forall|d: Declaration| #[trigger] declaration_is(d, tv) implies declaration_text(d) == declaration_text(
        Declaration::Surface(s),
    ) && section_of(d) == section_of(Declaration::Surface(s)) by {
        if let Declaration::Surface(t) = d {
            lemma_unit_token(t.origin.x, tv[3], "m"@);
            lemma_unit_token(t.origin.y, tv[4], "m"@);
            lemma_unit_token(t.origin.z, tv[5], "m"@);
            lemma_unit_token(t.width, tv[7], "m"@);
            lemma_unit_token(t.depth, tv[8], "m"@);
        }
    }
}

/// The text of an `obstacle` line as its tokens, each after its separator.
#[verifier::spinoff_prover]
#[verifier::rlimit(50)]
proof fn lemma_obstacle_text(o: ObstacleDecl, tv: Seq<Seq<char>>, seps: Seq<Seq<char>>)
    requires
        tv.len() == 11,
        tv[0] == "obstacle"@,
        tv[1] == o.id@,
        tv[2] == "on"@,
        tv[3] == o.surface@,
        tv[4] == "at"@,
        tv[5] == quantity_text(o.at.x, "m"@),
        tv[6] == quantity_text(o.at.y, "m"@),
        tv[7] == quantity_text(o.at.z, "m"@),
        tv[8] == "size"@,
        tv[9] == quantity_text(o.width, "m"@),
        tv[10] == quantity_text(o.depth, "m"@),
        seps == seq![""@, " "@, " "@, " "@, " "@, " ("@, ", "@, ", "@, ") "@, " ("@, ", "@],
    ensures
        declaration_text(Declaration::Obstacle(o)) == prefixed(tv, seps) + ")"@,
{
    lemma_prefixed_unrolled(tv, seps);
    lemma_prefixed_step(tv, seps, 0);
    lemma_prefixed_step(tv, seps, 1);
    lemma_prefixed_step(tv, seps, 2);
    lemma_prefixed_step(tv, seps, 3);
    lemma_prefixed_step(tv, seps, 4);
    lemma_prefixed_step(tv, seps, 5);
    lemma_prefixed_step(tv, seps, 6);
    lemma_prefixed_step(tv, seps, 7);
    lemma_prefixed_step(tv, seps, 8);
    lemma_prefixed_step(tv, seps, 9);
    lemma_prefixed_step(tv, seps, 10);
    reveal_strlit("obstacle ");
    reveal_strlit("obstacle");
    reveal_strlit("");
    reveal_strlit(" ");
    reveal_strlit(" on ");
    reveal_strlit("on");
    reveal_strlit(" at ");
    reveal_strlit("at");
    reveal_strlit(" (");
    reveal_strlit("(");
    reveal_strlit(", ");
    reveal_strlit(")");
    reveal_strlit(") ");
    reveal_strlit(" size (");
    reveal_strlit("size");
    assert(declaration_text(Declaration::Obstacle(o)) =~= prefixed(tv, seps) + ")"@);
}

/// The canonical line of an `obstacle` declaration reads back as its
/// tokens, and whatever those tokens denote is written as the same line.
pub proof fn lemma_obstacle_line(o: ObstacleDecl, tv: Seq<Seq<char>>)
    requires
        obstacle_ok(tv),
        declaration_is(Declaration::Obstacle(o), tv),
        canonical_tokens(tv),
    ensures
        reads_back_as(Declaration::Obstacle(o), tv),
{
    reveal_strlit("m");
    assert("m"@ == crate::syntax::meters());
    lemma_keyword_letters();
    lemma_separators();
    let seps = seq![""@, " "@, " "@, " "@, " "@, " ("@, ", "@, ", "@, ") "@, " ("@, ", "@];
    lemma_unit_token(o.at.x, tv[5], "m"@);
    lemma_unit_token(o.at.y, tv[6], "m"@);
    lemma_unit_token(o.at.z, tv[7], "m"@);
    lemma_unit_token(o.width, tv[9], "m"@);
    lemma_unit_token(o.depth, tv[10], "m"@);
    lemma_obstacle_text(o, tv, seps);
    assert forall|i: int| 0 <= i < seps.len() implies inline_separator(#[trigger] seps[i]) by {}
    assert forall|i: int| 1 <= i < seps.len() implies (#[trigger] seps[i]).len() > 0 by {}
    lemma_line_tokens_of_prefixed(tv, seps, ")"@);
    lemma_body_accepted(tv);
    assert forall|d: Declaration| #[trigger] declaration_is(d, tv) implies declaration_text(d) == declaration_text(
        Declaration::Obstacle(o),
    ) && section_of(d) == section_of(Declaration::Obstacle(o)) by {
        if let Declaration::Obstacle(t) = d {
            lemma_unit_token(t.at.x, tv[5], "m"@);
            lemma_unit_token(t.at.y, tv[6], "m"@);
            lemma_unit_token(t.at.z, tv[7], "m"@);
            lemma_unit_token(t.width, tv[9], "m"@);
            lemma_unit_token(t.depth, tv[10], "m"@);
        }
    }
}

/// The text of a `gate` line as its tokens, each after its separator.
#[verifier::spinoff_prover]
#[verifier::rlimit(50)]
proof fn lemma_gate_text(g: GateDecl, tv: Seq<Seq<char>>, seps: Seq<Seq<char>>)
    requires
        tv.len() == 14,
        tv[0] == "gate"@,
        tv[1] == g.id@,
        tv[2] == "on"@,
        tv[3] == g.surface@,
        tv[4] == "at"@,
        tv[5] == quantity_text(g.at.x, "m"@),
        tv[6] == quantity_text(g.at.y, "m"@),
        tv[7] == quantity_text(g.at.z, "m"@),
        tv[8] == "width"@,
        tv[9] == quantity_text(g.width, "m"@),
        tv[10] == "capacity"@,
        tv[11] == quantity_text(g.service_rate, "/s"@),
        tv[12] == "to"@,
        tv[13] == g.destination@,
        seps == seq![""@, " "@, " "@, " "@, " "@, " ("@, ", "@, ", "@, ") "@, " "@, " "@, " "@, " "@, " "@],
    ensures
        declaration_text(Declaration::Gate(g)) == prefixed(tv, seps) + ""@,
{
    lemma_prefixed_unrolled(tv, seps);
    lemma_prefixed_step(tv, seps, 0);
    lemma_prefixed_step(tv, seps, 1);
    lemma_prefixed_step(tv, seps, 2);
    lemma_prefixed_step(tv, seps, 3);
    lemma_prefixed_step(tv, seps, 4);
    lemma_prefixed_step(tv, seps, 5);
    lemma_prefixed_step(tv, seps, 6);
    lemma_prefixed_step(tv, seps, 7);
    lemma_prefixed_step(tv, seps, 8);
    lemma_prefixed_step(tv, seps, 9);
    lemma_prefixed_step(tv, seps, 10);
    lemma_prefixed_step(tv, seps, 11);
    lemma_prefixed_step(tv, seps, 12);
    lemma_prefixed_step(tv, seps, 13);
    reveal_strlit("gate ");
    reveal_strlit("gate");
    reveal_strlit("");
    reveal_strlit(" ");
    reveal_strlit(" on ");
    reveal_strlit("on");
    reveal_strlit(" at ");
    reveal_strlit("at");
    reveal_strlit(" (");
    reveal_strlit("(");
    reveal_strlit(", ");
    reveal_strlit(")");
    reveal_strlit(") ");
    reveal_strlit(" width ");
    reveal_strlit("width");
    reveal_strlit(" capacity ");
    reveal_strlit("capacity");
    reveal_strlit(" to ");
    reveal_strlit("to");
    assert(gate_text(g) =~= prefixed(tv, seps) + ""@);
    assert(declaration_text(Declaration::Gate(g)) == gate_text(g));
}

/// The canonical line of a `gate` declaration reads back as its tokens,
/// and whatever those tokens denote is written as the same line.
pub proof fn lemma_gate_line(g: GateDecl, tv: Seq<Seq<char>>)
    requires
        gate_ok(tv),
        declaration_is(Declaration::Gate(g), tv),
        canonical_tokens(tv),
    ensures
        reads_back_as(Declaration::Gate(g), tv),
{
    reveal_strlit("m");
    reveal_strlit("/s");
    assert("m"@ == crate::syntax::meters());
    assert("/s"@ == crate::syntax::per_second());
    lemma_keyword_letters();
    lemma_separators();
    let seps = seq![""@, " "@, " "@, " "@, " "@, " ("@, ", "@, ", "@, ") "@, " "@, " "@, " "@, " "@, " "@];
    lemma_unit_token(g.at.x, tv[5], "m"@);
    lemma_unit_token(g.at.y, tv[6], "m"@);
    lemma_unit_token(g.at.z, tv[7], "m"@);
    lemma_unit_token(g.width, tv[9], "m"@);
    lemma_unit_token(g.service_rate, tv[11], "/s"@);
    lemma_gate_text(g, tv, seps);
    assert forall|i: int| 0 <= i < seps.len() implies inline_separator(#[trigger] seps[i]) by {}
    assert forall|i: int| 1 <= i < seps.len() implies (#[trigger] seps[i]).len() > 0 by {}
    lemma_line_tokens_of_prefixed(tv, seps, ""@);
    lemma_body_accepted(tv);
    assert forall|d: Declaration| #[trigger] declaration_is(d, tv) implies declaration_text(d) == declaration_text(
        Declaration::Gate(g),
    ) && section_of(d) == section_of(Declaration::Gate(g)) by {
        if let Declaration::Gate(t) = d {
            lemma_unit_token(t.at.x, tv[5], "m"@);
            lemma_unit_token(t.at.y, tv[6], "m"@);
            lemma_unit_token(t.at.z, tv[7], "m"@);
            lemma_unit_token(t.width, tv[9], "m"@);
            lemma_unit_token(t.service_rate, tv[11], "/s"@);
        }
    }
}

/// A duration's canonical text is the token it was read from.
pub(crate) proof fn lemma_duration_token(q: Quantity, t: Seq<char>)
    requires
        duration_is(q, t),
    ensures
        duration_text(q) == t,
{
    reveal_strlit("ms");
    reveal_strlit("s");
    assert("ms"@ == crate::syntax::milliseconds());
    assert("s"@ == crate::syntax::seconds());
    if ends_with(t, crate::syntax::milliseconds()) {
        assert(without_suffix(t, "ms"@) + "ms"@ =~= t);
    } else {
        assert(without_suffix(t, "s"@) + "s"@ =~= t);
    }
}

/// An availability's canonical word is the token it was read from.
proof fn lemma_state_token(open: bool, t: Seq<char>)
    requires
        Some(open) == availability(t),
    ensures
        state_word(open) == t,
{
}

/// The text of a timed state change as its tokens, each after its separator.
#[verifier::spinoff_prover]
#[verifier::rlimit(50)]
proof fn lemma_state_change_text(
    keyword: Seq<char>,
    kind: Seq<char>,
    s: StateChangeDecl,
    tv: Seq<Seq<char>>,
    seps: Seq<Seq<char>>,
)
    requires
        tv.len() == 7,
        tv[0] == keyword,
        tv[1] == s.id@,
        tv[2] == kind,
        tv[3] == s.subject@,
        tv[4] == state_word(s.open),
        tv[5] == "time"@,
        tv[6] == duration_text(s.at),
        seps == seq![""@, " "@, " "@, " "@, " "@, " "@, " "@],
    ensures
        state_change_text(keyword, kind, s) == prefixed(tv, seps) + ""@,
{
    lemma_prefixed_unrolled(tv, seps);
    lemma_prefixed_step(tv, seps, 0);
    lemma_prefixed_step(tv, seps, 1);
    lemma_prefixed_step(tv, seps, 2);
    lemma_prefixed_step(tv, seps, 3);
    lemma_prefixed_step(tv, seps, 4);
    lemma_prefixed_step(tv, seps, 5);
    lemma_prefixed_step(tv, seps, 6);
    reveal_strlit("");
    reveal_strlit(" ");
    reveal_strlit(" time ");
    reveal_strlit("time");
    assert(state_change_text(keyword, kind, s) =~= prefixed(tv, seps) + ""@);
}

/// The canonical line of a timed state change reads back as its tokens.
proof fn lemma_state_change_line(d: Declaration, keyword: Seq<char>, kind: Seq<char>, s: StateChangeDecl, tv: Seq<Seq<char>>)
    requires
        d == Declaration::ConnectorState(s) || d == Declaration::ExitState(s) || d == Declaration::GateState(s),
        d == Declaration::ConnectorState(s) ==> keyword == "connector-state"@ && kind == "connector"@,
        d == Declaration::ExitState(s) ==> keyword == "exit-state"@ && kind == "exit"@,
        d == Declaration::GateState(s) ==> keyword == "gate-state"@ && kind == "gate"@,
        tv.len() > 0,
        tv[0] == keyword,
        state_change_ok(tv, kind),
        state_change_is(s, tv),
        canonical_tokens(tv),
    ensures
        reads_back_as(d, tv),
{
    lemma_separators();
    let seps = seq![""@, " "@, " "@, " "@, " "@, " "@, " "@];
    lemma_state_token(s.open, tv[4]);
    lemma_duration_token(s.at, tv[6]);
    lemma_state_change_text(keyword, kind, s, tv, seps);
    assert(declaration_text(d) == state_change_text(keyword, kind, s));
    assert forall|i: int| 0 <= i < seps.len() implies inline_separator(#[trigger] seps[i]) by {}
    assert forall|i: int| 1 <= i < seps.len() implies (#[trigger] seps[i]).len() > 0 by {}
    lemma_line_tokens_of_prefixed(tv, seps, ""@);
    lemma_body_accepted(tv);
    lemma_keyword_letters();
    assert forall|e: Declaration| #[trigger] declaration_is(e, tv) implies declaration_text(e) == declaration_text(d)
        && section_of(e) == section_of(d) by {
        match e {
            Declaration::ConnectorState(t) => {
                lemma_state_token(t.open, tv[4]);
                lemma_duration_token(t.at, tv[6]);
            },
            Declaration::ExitState(t) => {
                lemma_state_token(t.open, tv[4]);
                lemma_duration_token(t.at, tv[6]);
            },
            Declaration::GateState(t) => {
                lemma_state_token(t.open, tv[4]);
                lemma_duration_token(t.at, tv[6]);
            },
            _ => {},
        }
    }
}

/// The canonical line of a `connector-state` declaration reads back as its
/// tokens, and whatever those tokens denote is written as the same line.
pub proof fn lemma_connector_state_line(s: StateChangeDecl, tv: Seq<Seq<char>>)
    requires
        state_change_ok(tv, "connector"@),
        declaration_is(Declaration::ConnectorState(s), tv),
        canonical_tokens(tv),
    ensures
        reads_back_as(Declaration::ConnectorState(s), tv),
{
    lemma_state_change_line(Declaration::ConnectorState(s), "connector-state"@, "connector"@, s, tv);
}

/// The canonical line of an `exit-state` declaration reads back as its
/// tokens, and whatever those tokens denote is written as the same line.
pub proof fn lemma_exit_state_line(s: StateChangeDecl, tv: Seq<Seq<char>>)
    requires
        state_change_ok(tv, "exit"@),
        declaration_is(Declaration::ExitState(s), tv),
        canonical_tokens(tv),
    ensures
        reads_back_as(Declaration::ExitState(s), tv),
{
    lemma_state_change_line(Declaration::ExitState(s), "exit-state"@, "exit"@, s, tv);
}

/// The canonical line of a `gate-state` declaration reads back as its
/// tokens, and whatever those tokens denote is written as the same line.
pub proof fn lemma_gate_state_line(s: StateChangeDecl, tv: Seq<Seq<char>>)
    requires
        state_change_ok(tv, "gate"@),
        declaration_is(Declaration::GateState(s), tv),
        canonical_tokens(tv),
    ensures
        reads_back_as(Declaration::GateState(s), tv),
{
    lemma_state_change_line(Declaration::GateState(s), "gate-state"@, "gate"@, s, tv);
}

/// The text of a timed capacity change as its tokens, each after its
/// separator.
#[verifier::spinoff_prover]
#[verifier::rlimit(50)]
proof fn lemma_capacity_change_text(
    keyword: Seq<char>,
    kind: Seq<char>,
    c: CapacityChangeDecl,
    tv: Seq<Seq<char>>,
    seps: Seq<Seq<char>>,
)
    requires
        tv.len() == 8,
        tv[0] == keyword,
        tv[1] == c.id@,
        tv[2] == kind,
        tv[3] == c.subject@,
        tv[4] == "capacity"@,
        tv[5] == quantity_text(c.capacity, "/s"@),
        tv[6] == "time"@,
        tv[7] == duration_text(c.at),
        seps == seq![""@, " "@, " "@, " "@, " "@, " "@, " "@, " "@],
    ensures
        capacity_change_text(keyword, kind, c) == prefixed(tv, seps) + ""@,
{
    lemma_prefixed_eight(tv, seps);
    reveal_strlit("");
    reveal_strlit(" ");
    reveal_strlit(" capacity ");
    reveal_strlit("capacity");
    reveal_strlit(" time ");
    reveal_strlit("time");
    assert(capacity_change_text(keyword, kind, c) =~= prefixed(tv, seps) + ""@);
}

/// The canonical line of a timed capacity change reads back as its tokens.
#[verifier::spinoff_prover]
#[verifier::rlimit(80)]
proof fn lemma_capacity_change_line(
    d: Declaration,
    keyword: Seq<char>,
    kind: Seq<char>,
    c: CapacityChangeDecl,
    tv: Seq<Seq<char>>,
)
    requires
        d == Declaration::ConnectorCapacityState(c) || d == Declaration::ExitCapacityState(c)
            || d == Declaration::GateCapacityState(c),
        d == Declaration::ConnectorCapacityState(c) ==> keyword == "connector-capacity-state"@ && kind
            == "connector"@,
        d == Declaration::ExitCapacityState(c) ==> keyword == "exit-capacity-state"@ && kind == "exit"@,
        d == Declaration::GateCapacityState(c) ==> keyword == "gate-capacity-state"@ && kind == "gate"@,
        tv.len() > 0,
        tv[0] == keyword,
        capacity_change_ok(tv, kind),
        capacity_change_is(c, tv),
        canonical_tokens(tv),
    ensures
        reads_back_as(d, tv),
{
    lemma_separators();
    reveal_strlit("/s");
    assert("/s"@ == crate::syntax::per_second());
    let seps = seq![""@, " "@, " "@, " "@, " "@, " "@, " "@, " "@];
    lemma_unit_token(c.capacity, tv[5], "/s"@);
    lemma_duration_token(c.at, tv[7]);
    lemma_capacity_change_text(keyword, kind, c, tv, seps);
    assert(declaration_text(d) == capacity_change_text(keyword, kind, c));
    assert forall|i: int| 0 <= i < seps.len() implies inline_separator(#[trigger] seps[i]) by {}
    assert forall|i: int| 1 <= i < seps.len() implies (#[trigger] seps[i]).len() > 0 by {}
    lemma_line_tokens_of_prefixed(tv, seps, ""@);
    lemma_body_accepted(tv);
    lemma_keyword_letters();
    assert forall|e: Declaration| #[trigger] declaration_is(e, tv) implies declaration_text(e) == declaration_text(d)
        && section_of(e) == section_of(d) by {
        match e {
            Declaration::ConnectorCapacityState(t) => {
                lemma_unit_token(t.capacity, tv[5], "/s"@);
                lemma_duration_token(t.at, tv[7]);
            },
            Declaration::ExitCapacityState(t) => {
                lemma_unit_token(t.capacity, tv[5], "/s"@);
                lemma_duration_token(t.at, tv[7]);
            },
            Declaration::GateCapacityState(t) => {
                lemma_unit_token(t.capacity, tv[5], "/s"@);
                lemma_duration_token(t.at, tv[7]);
            },
            _ => {},
        }
    }
}

/// The text of a `walking-profile` line as its tokens, each after its
/// separator.
#[verifier::spinoff_prover]
#[verifier::rlimit(80)]
proof fn lemma_walking_profile_text(w: WalkingProfileDecl, tv: Seq<Seq<char>>, seps: Seq<Seq<char>>)
    requires
        tv.len() == 11,
        tv[0] == "walking-profile"@,
        tv[1] == w.id@,
        tv[2] == "horizontal-free-walking"@,
        tv[3] == "speed"@,
        tv[4] == quantity_text(w.speed, "m/s"@),
        tv[5] == "catalog-sha256"@,
        tv[6] == w.catalog_sha256@,
        tv[7] == "calibration-profile-sha256"@,
        tv[8] == w.calibration_profile_sha256@,
        tv[9] == "held-out-evaluation-sha256"@,
        tv[10] == w.held_out_evaluation_sha256@,
        seps == seq![""@, " "@, " "@, " "@, " "@, " "@, " "@, " "@, " "@, " "@, " "@],
    ensures
        walking_profile_text(w) == prefixed(tv, seps) + ""@,
{
    lemma_prefixed_unrolled(tv, seps);
    lemma_prefixed_step(tv, seps, 0);
    lemma_prefixed_step(tv, seps, 1);
    lemma_prefixed_step(tv, seps, 2);
    lemma_prefixed_step(tv, seps, 3);
    lemma_prefixed_step(tv, seps, 4);
    lemma_prefixed_step(tv, seps, 5);
    lemma_prefixed_step(tv, seps, 6);
    lemma_prefixed_step(tv, seps, 7);
    lemma_prefixed_step(tv, seps, 8);
    lemma_prefixed_step(tv, seps, 9);
    lemma_prefixed_step(tv, seps, 10);
    reveal_strlit("");
    reveal_strlit(" ");
    reveal_strlit("walking-profile ");
    reveal_strlit("walking-profile");
    reveal_strlit(" horizontal-free-walking speed ");
    reveal_strlit("horizontal-free-walking");
    reveal_strlit("speed");
    reveal_strlit(" catalog-sha256 ");
    reveal_strlit("catalog-sha256");
    reveal_strlit(" calibration-profile-sha256 ");
    reveal_strlit("calibration-profile-sha256");
    reveal_strlit(" held-out-evaluation-sha256 ");
    reveal_strlit("held-out-evaluation-sha256");
    assert(walking_profile_text(w) =~= prefixed(tv, seps) + ""@);
}

/// The canonical line of a `walking-profile` declaration reads back as its
/// tokens, and whatever those tokens denote is written as the same line.
#[verifier::spinoff_prover]
#[verifier::rlimit(80)]
pub proof fn lemma_walking_profile_line(w: WalkingProfileDecl, tv: Seq<Seq<char>>)
    requires
        walking_profile_ok(tv),
        declaration_is(Declaration::WalkingProfile(w), tv),
        canonical_tokens(tv),
    ensures
        reads_back_as(Declaration::WalkingProfile(w), tv),
{
    lemma_separators();
    reveal_strlit("m/s");
    assert("m/s"@ == crate::syntax::meters_per_second());
    let d = Declaration::WalkingProfile(w);
    let seps = seq![""@, " "@, " "@, " "@, " "@, " "@, " "@, " "@, " "@, " "@, " "@];
    lemma_unit_token(w.speed, tv[4], "m/s"@);
    lemma_walking_profile_text(w, tv, seps);
    assert(declaration_text(d) == walking_profile_text(w));
    assert forall|i: int| 0 <= i < seps.len() implies inline_separator(#[trigger] seps[i]) by {}
    assert forall|i: int| 1 <= i < seps.len() implies (#[trigger] seps[i]).len() > 0 by {}
    lemma_line_tokens_of_prefixed(tv, seps, ""@);
    lemma_body_accepted(tv);
    lemma_keyword_letters();
    assert forall|e: Declaration| #[trigger] declaration_is(e, tv) implies declaration_text(e) == declaration_text(d)
        && section_of(e) == section_of(d) by {
        if let Declaration::WalkingProfile(v) = e {
            lemma_unit_token(v.speed, tv[4], "m/s"@);
            lemma_walking_profile_text(v, tv, seps);
        }
    }
}

/// The text of a `waypoint` line as its tokens, each after its separator.
#[verifier::spinoff_prover]
#[verifier::rlimit(50)]
proof fn lemma_waypoint_text(w: WaypointDecl, tv: Seq<Seq<char>>, seps: Seq<Seq<char>>)
    requires
        tv.len() == 10,
        tv[0] == "waypoint"@,
        tv[1] == w.id@,
        tv[2] == "on"@,
        tv[3] == w.surface@,
        tv[4] == "at"@,
        tv[5] == quantity_text(w.at.x, "m"@),
        tv[6] == quantity_text(w.at.y, "m"@),
        tv[7] == quantity_text(w.at.z, "m"@),
        tv[8] == "dwell"@,
        tv[9] == match w.dwell {
            Some(q) => duration_text(q),
            None => "0s"@,
        },
        seps == seq![""@, " "@, " "@, " "@, " "@, " ("@, ", "@, ", "@, ") "@, " "@],
    ensures
        declaration_text(Declaration::Waypoint(w)) == prefixed(tv, seps) + ""@,
{
    lemma_prefixed_unrolled(tv, seps);
    lemma_prefixed_step(tv, seps, 0);
    lemma_prefixed_step(tv, seps, 1);
    lemma_prefixed_step(tv, seps, 2);
    lemma_prefixed_step(tv, seps, 3);
    lemma_prefixed_step(tv, seps, 4);
    lemma_prefixed_step(tv, seps, 5);
    lemma_prefixed_step(tv, seps, 6);
    lemma_prefixed_step(tv, seps, 7);
    lemma_prefixed_step(tv, seps, 8);
    lemma_prefixed_step(tv, seps, 9);
    reveal_strlit("waypoint ");
    reveal_strlit("waypoint");
    reveal_strlit("");
    reveal_strlit(" ");
    reveal_strlit(" on ");
    reveal_strlit("on");
    reveal_strlit(" at ");
    reveal_strlit("at");
    reveal_strlit(" (");
    reveal_strlit("(");
    reveal_strlit(", ");
    reveal_strlit(")");
    reveal_strlit(") ");
    reveal_strlit(" dwell ");
    reveal_strlit("dwell");
    assert(declaration_text(Declaration::Waypoint(w)) =~= prefixed(tv, seps) + ""@);
}

/// `0s` is a canonical duration token.
pub(crate) proof fn lemma_zero_seconds()
    ensures
        canonical_word("0s"@),
        canonical_word("dwell"@),
        crate::syntax::duration_ok("0s"@),
{
    reveal_strlit("0s");
    reveal_strlit("dwell");
    reveal_strlit("s");
    reveal_strlit("ms");
    let t = "0s"@;
    assert(!ends_with(t, crate::syntax::milliseconds())) by {
        assert(t.skip(0) == t);
        assert(t[0] != crate::syntax::milliseconds()[0]);
    }
    assert(t.skip(1) =~= crate::syntax::seconds());
    let b = without_suffix(t, crate::syntax::seconds());
    assert(b =~= seq!['0']);
    assert(b.take(1) =~= b);
    assert(crate::text::is_ascii_digit(b[0]));
    assert(crate::literal::is_mantissa(b.take(1)));
    assert(crate::literal::is_decimal_number(b));
}

/// The canonical line of a `waypoint` declaration reads back as its tokens,
/// with `dwell 0s` added where the declaration had no dwell clause, and
/// whatever those tokens denote is written as the same line.
pub proof fn lemma_waypoint_line(w: WaypointDecl, tv: Seq<Seq<char>>)
    requires
        waypoint_ok(tv),
        declaration_is(Declaration::Waypoint(w), tv),
        canonical_tokens(tv),
    ensures
        reads_back_as(
            Declaration::Waypoint(w),
            if tv.len() == 10 {
                tv
            } else {
                tv + seq!["dwell"@, "0s"@]
            },
        ),
{
    reveal_strlit("m");
    assert("m"@ == crate::syntax::meters());
    lemma_separators();
    lemma_zero_seconds();
    lemma_keyword_letters();
    let u = if tv.len() == 10 {
        tv
    } else {
        tv + seq!["dwell"@, "0s"@]
    };
    let seps = seq![""@, " "@, " "@, " "@, " "@, " ("@, ", "@, ", "@, ") "@, " "@];
    lemma_unit_token(w.at.x, tv[5], "m"@);
    lemma_unit_token(w.at.y, tv[6], "m"@);
    lemma_unit_token(w.at.z, tv[7], "m"@);
    assert(u.len() == 10);
    assert forall|i: int| 0 <= i < 8 implies #[trigger] u[i] == tv[i] by {}
    if let Some(q) = w.dwell {
        lemma_duration_token(q, tv[9]);
    }
    lemma_waypoint_text(w, u, seps);
    assert forall|i: int| 0 <= i < u.len() implies canonical_word(#[trigger] u[i]) by {
        if i < tv.len() {
            assert(canonical_word(tv[i]));
        }
    }
    assert forall|i: int| 0 <= i < seps.len() implies inline_separator(#[trigger] seps[i]) by {}
    assert forall|i: int| 1 <= i < seps.len() implies (#[trigger] seps[i]).len() > 0 by {}
    lemma_line_tokens_of_prefixed(u, seps, ""@);
    assert(waypoint_ok(u));
    lemma_body_accepted(u);
    assert forall|e: Declaration| #[trigger] declaration_is(e, u) implies declaration_text(e) == declaration_text(
        Declaration::Waypoint(w),
    ) && section_of(e) == section_of(Declaration::Waypoint(w)) by {
        if let Declaration::Waypoint(t) = e {
            lemma_unit_token(t.at.x, tv[5], "m"@);
            lemma_unit_token(t.at.y, tv[6], "m"@);
            lemma_unit_token(t.at.z, tv[7], "m"@);
            if let Some(q) = t.dwell {
                lemma_duration_token(q, u[9]);
            }
        }
    }
}

/// The text of an `exit` line as its tokens, each after its separator.
#[verifier::spinoff_prover]
#[verifier::rlimit(100)]
proof fn lemma_exit_text(x: ExitDecl, tv: Seq<Seq<char>>, seps: Seq<Seq<char>>)
    requires
        tv[0] == "exit"@,
        tv[1] == x.id@,
        tv[2] == "on"@,
        tv[3] == x.surface@,
        tv[4] == "at"@,
        tv[5] == quantity_text(x.at.x, "m"@),
        tv[6] == quantity_text(x.at.y, "m"@),
        tv[7] == quantity_text(x.at.z, "m"@),
        tv[8] == "width"@,
        tv[9] == quantity_text(x.width, "m"@),
        match x.capacity {
            Some(q) => tv.len() == 12 && tv[10] == "capacity"@ && tv[11] == quantity_text(q, "/s"@)
                && seps == seq![""@, " "@, " "@, " "@, " "@, " ("@, ", "@, ", "@, ") "@, " "@, " "@, " "@],
            None => tv.len() == 10 && seps == seq![""@, " "@, " "@, " "@, " "@, " ("@, ", "@, ", "@, ") "@, " "@],
        },
    ensures
        declaration_text(Declaration::Exit(x)) == prefixed(tv, seps) + ""@,
{
    lemma_prefixed_unrolled(tv, seps);
    lemma_prefixed_step(tv, seps, 0);
    lemma_prefixed_step(tv, seps, 1);
    lemma_prefixed_step(tv, seps, 2);
    lemma_prefixed_step(tv, seps, 3);
    lemma_prefixed_step(tv, seps, 4);
    lemma_prefixed_step(tv, seps, 5);
    lemma_prefixed_step(tv, seps, 6);
    lemma_prefixed_step(tv, seps, 7);
    lemma_prefixed_step(tv, seps, 8);
    lemma_prefixed_step(tv, seps, 9);
    if x.capacity is Some {
        lemma_prefixed_step(tv, seps, 10);
        lemma_prefixed_step(tv, seps, 11);
    }
    reveal_strlit("exit ");
    reveal_strlit("exit");
    reveal_strlit("");
    reveal_strlit(" ");
    reveal_strlit(" on ");
    reveal_strlit("on");
    reveal_strlit(" at ");
    reveal_strlit("at");
    reveal_strlit(" (");
    reveal_strlit("(");
    reveal_strlit(", ");
    reveal_strlit(")");
    reveal_strlit(") ");
    reveal_strlit(" width ");
    reveal_strlit("width");
    reveal_strlit(" capacity ");
    reveal_strlit("capacity");
    assert(declaration_text(Declaration::Exit(x)) =~= prefixed(tv, seps) + ""@);
}

/// The canonical line of an `exit` declaration reads back as its tokens,
/// and whatever those tokens denote is written as the same line.
#[verifier::spinoff_prover]
#[verifier::rlimit(80)]
pub proof fn lemma_exit_line(x: ExitDecl, tv: Seq<Seq<char>>)
    requires
        exit_ok(tv),
        declaration_is(Declaration::Exit(x), tv),
        canonical_tokens(tv),
    ensures
        reads_back_as(Declaration::Exit(x), tv),
{
    reveal_strlit("m");
    reveal_strlit("/s");
    assert("m"@ == crate::syntax::meters());
    assert("/s"@ == crate::syntax::per_second());
    lemma_separators();
    lemma_keyword_letters();
    let seps = if tv.len() == 12 {
        seq![""@, " "@, " "@, " "@, " "@, " ("@, ", "@, ", "@, ") "@, " "@, " "@, " "@]
    } else {
        seq![""@, " "@, " "@, " "@, " "@, " ("@, ", "@, ", "@, ") "@, " "@]
    };
    lemma_unit_token(x.at.x, tv[5], "m"@);
    lemma_unit_token(x.at.y, tv[6], "m"@);
    lemma_unit_token(x.at.z, tv[7], "m"@);
    lemma_unit_token(x.width, tv[9], "m"@);
    if let Some(q) = x.capacity {
        lemma_unit_token(q, tv[11], "/s"@);
    }
    lemma_exit_text(x, tv, seps);
    assert forall|i: int| 0 <= i < seps.len() implies inline_separator(#[trigger] seps[i]) by {}
    assert forall|i: int| 1 <= i < seps.len() implies (#[trigger] seps[i]).len() > 0 by {}
    lemma_line_tokens_of_prefixed(tv, seps, ""@);
    lemma_body_accepted(tv);
    assert forall|e: Declaration| #[trigger] declaration_is(e, tv) implies declaration_text(e) == declaration_text(
        Declaration::Exit(x),
    ) && section_of(e) == section_of(Declaration::Exit(x)) by {
        if let Declaration::Exit(t) = e {
            lemma_unit_token(t.at.x, tv[5], "m"@);
            lemma_unit_token(t.at.y, tv[6], "m"@);
            lemma_unit_token(t.at.z, tv[7], "m"@);
            lemma_unit_token(t.width, tv[9], "m"@);
            if let Some(q) = t.capacity {
                lemma_unit_token(q, tv[11], "/s"@);
            }
        }
    }
}

/// The canonical tokens of an optional `WORD VALUE` clause.
pub open spec fn option_tokens(q: Option<Quantity>, word: Seq<char>, unit: Seq<char>) -> Seq<Seq<char>> {
    match q {
        Some(q) => seq![word, quantity_text(q, unit)],
        None => Seq::empty(),
    }
}

/// The separators before the tokens of an optional clause.
pub open spec fn option_seps(q: Option<Quantity>) -> Seq<Seq<char>> {
    match q {
        Some(_) => seq![" "@, " "@],
        None => Seq::empty(),
    }
}

proof fn lemma_option_text(q: Option<Quantity>, prefix: Seq<char>, word: Seq<char>, unit: Seq<char>)
    requires
        prefix == " "@ + word + " "@,
    ensures
        option_text(q, prefix, unit) == prefixed(option_tokens(q, word, unit), option_seps(q)),
{
    if let Some(v) = q {
        let tv = option_tokens(q, word, unit);
        let seps = option_seps(q);
        lemma_prefixed_unrolled(tv, seps);
        lemma_prefixed_step(tv, seps, 0);
        lemma_prefixed_step(tv, seps, 1);
        assert(option_text(q, prefix, unit) =~= prefixed(tv, seps));
    } else {
        assert(prefixed(option_tokens(q, word, unit), option_seps(q)) =~= Seq::<char>::empty());
    }
}

/// The canonical tokens from a connector's id to its far end.
pub open spec fn ends_tokens(e: ConnectorEnds) -> Seq<Seq<char>> {
    seq![
        e.id@,
        "from"@,
        e.from_surface@,
        "at"@,
        quantity_text(e.from.x, "m"@),
        quantity_text(e.from.y, "m"@),
        quantity_text(e.from.z, "m"@),
        "to"@,
        e.to_surface@,
        "at"@,
        quantity_text(e.to.x, "m"@),
        quantity_text(e.to.y, "m"@),
        quantity_text(e.to.z, "m"@),
    ]
}

/// The separators before the tokens of a connector's ends.
pub open spec fn ends_seps() -> Seq<Seq<char>> {
    seq![" "@, " "@, " "@, " "@, " ("@, ", "@, ", "@, ") "@, " "@, " "@, " ("@, ", "@, ", "@]
}

/// A keyword and a connector's ends, then the words and values that follow
/// the far end.
#[verifier::spinoff_prover]
#[verifier::rlimit(80)]
proof fn lemma_ends_text(keyword: Seq<char>, e: ConnectorEnds)
    ensures
        keyword + " "@ + ends_text(e) == prefixed(seq![keyword] + ends_tokens(e), seq![""@] + ends_seps()) + ")"@,
{
    let tv = seq![keyword] + ends_tokens(e);
    let seps = seq![""@] + ends_seps();
    lemma_prefixed_unrolled(tv, seps);
    lemma_prefixed_step(tv, seps, 0);
    lemma_prefixed_step(tv, seps, 1);
    lemma_prefixed_step(tv, seps, 2);
    lemma_prefixed_step(tv, seps, 3);
    lemma_prefixed_step(tv, seps, 4);
    lemma_prefixed_step(tv, seps, 5);
    lemma_prefixed_step(tv, seps, 6);
    lemma_prefixed_step(tv, seps, 7);
    lemma_prefixed_step(tv, seps, 8);
    lemma_prefixed_step(tv, seps, 9);
    lemma_prefixed_step(tv, seps, 10);
    lemma_prefixed_step(tv, seps, 11);
    lemma_prefixed_step(tv, seps, 12);
    lemma_prefixed_step(tv, seps, 13);
    reveal_strlit("");
    reveal_strlit(" ");
    reveal_strlit(" from ");
    reveal_strlit("from");
    reveal_strlit(" at ");
    reveal_strlit("at");
    reveal_strlit(" (");
    reveal_strlit("(");
    reveal_strlit(", ");
    reveal_strlit(")");
    reveal_strlit(") ");
    reveal_strlit(" to ");
    reveal_strlit("to");
    assert(keyword + " "@ + ends_text(e) =~= prefixed(tv, seps) + ")"@);
}

/// The tokens of a connector's ends are those it was read from, and ends
/// with the same tokens are written alike.
proof fn lemma_ends_tokens(e: ConnectorEnds, tv: Seq<Seq<char>>)
    requires
        ends_is(e, tv),
        ends_ok(tv),
    ensures
        ends_tokens(e) == tv.subrange(1, 14),
{
    reveal_strlit("m");
    assert("m"@ == crate::syntax::meters());
    lemma_unit_token(e.from.x, tv[5], "m"@);
    lemma_unit_token(e.from.y, tv[6], "m"@);
    lemma_unit_token(e.from.z, tv[7], "m"@);
    lemma_unit_token(e.to.x, tv[11], "m"@);
    lemma_unit_token(e.to.y, tv[12], "m"@);
    lemma_unit_token(e.to.z, tv[13], "m"@);
    assert(ends_tokens(e) =~= tv.subrange(1, 14));
}

proof fn lemma_ends_text_of_tokens(a: ConnectorEnds, b: ConnectorEnds)
    requires
        ends_tokens(a) == ends_tokens(b),
    ensures
        ends_text(a) == ends_text(b),
{
    let ta = ends_tokens(a);
    let tb = ends_tokens(b);
    assert(ta[0] == tb[0] && ta[2] == tb[2] && ta[4] == tb[4] && ta[5] == tb[5] && ta[6] == tb[6]);
    assert(ta[8] == tb[8] && ta[10] == tb[10] && ta[11] == tb[11] && ta[12] == tb[12]);
}

/// The position of an optional clause's value, if the clause is there.
pub open spec fn option_index(q: Option<Quantity>, at: int) -> Option<int> {
    match q {
        Some(_) => Some(at),
        None => None,
    }
}

/// Canonical optional clauses, capacity before clearance, read back as the
/// positions of their values.
#[verifier::spinoff_prover]
#[verifier::rlimit(50)]
proof fn lemma_canonical_options(u: Seq<Seq<char>>, base: int, cap: Option<Quantity>, clr: Option<Quantity>)
    requires
        0 <= base,
        u.len() == base + option_tokens(cap, "capacity"@, "/s"@).len() + option_tokens(clr, "clearance"@, "m"@).len(),
        u.subrange(base, u.len() as int) == option_tokens(cap, "capacity"@, "/s"@) + option_tokens(clr, "clearance"@, "m"@),
        cap matches Some(q) ==> rate_ok(quantity_text(q, "/s"@)),
        clr matches Some(q) ==> length_ok(quantity_text(q, "m"@)),
    ensures
        connector_options(u, base) == Some((
            option_index(cap, base + 1),
            option_index(clr, base + option_tokens(cap, "capacity"@, "/s"@).len() + 1),
        )),
{
    let ct = option_tokens(cap, "capacity"@, "/s"@);
    let lt = option_tokens(clr, "clearance"@, "m"@);
    let tail = u.subrange(base, u.len() as int);
    assert(("capacity"@ != "clearance"@)) by {
        reveal_strlit("capacity");
        reveal_strlit("clearance");
        assert("capacity"@.len() != "clearance"@.len());
    }
    match (cap, clr) {
        (None, None) => {},
        (Some(a), None) => {
            assert(u[base] == tail[0] && u[base + 1] == tail[1]);
            assert(connector_options_from(u, base + 2, Some(base + 1), None) == Some((Some(base + 1), None::<int>)));
        },
        (None, Some(b)) => {
            assert(u[base] == tail[0] && u[base + 1] == tail[1]);
            assert(connector_options_from(u, base + 2, None, Some(base + 1)) == Some((None::<int>, Some(base + 1))));
        },
        (Some(a), Some(b)) => {
            assert(u[base] == tail[0] && u[base + 1] == tail[1]);
            assert(u[base + 2] == tail[2] && u[base + 3] == tail[3]);
            assert(connector_options_from(u, base + 4, Some(base + 1), Some(base + 3)) == Some((Some(base + 1), Some(base + 3))));
            assert(connector_options_from(u, base + 2, Some(base + 1), None) == Some((Some(base + 1), Some(base + 3))));
        },
    }
}

/// A lift's canonical final clearance clause reads back as the position of
/// its value.
proof fn lemma_canonical_final_clearance(u: Seq<Seq<char>>, base: int, clr: Option<Quantity>)
    requires
        0 <= base,
        u.len() == base + option_tokens(clr, "clearance"@, "m"@).len(),
        u.subrange(base, u.len() as int) == option_tokens(clr, "clearance"@, "m"@),
        clr matches Some(q) ==> length_ok(quantity_text(q, "m"@)),
    ensures
        final_clearance(u, base) == Some(option_index(clr, base + 1)),
{
    let tail = u.subrange(base, u.len() as int);
    if clr is Some {
        assert(u[base] == tail[0]);
        assert(u[base + 1] == tail[1]);
    }
}

/// The canonical tokens of a connector after its far end, before its
/// optional clauses.
pub open spec fn connector_middle(c: ConnectorDecl) -> Seq<Seq<char>> {
    match c {
        ConnectorDecl::Stair { width, .. } => seq!["width"@, quantity_text(width, "m"@)],
        ConnectorDecl::Ramp { width, .. } => seq!["width"@, quantity_text(width, "m"@)],
        ConnectorDecl::Escalator { width, belt_speed, .. } => seq![
            "width"@,
            quantity_text(width, "m"@),
            "belt"@,
            quantity_text(belt_speed, "m/s"@),
        ],
        ConnectorDecl::Lift { cabin_width, cabin_depth, capacity, cycle, .. } => seq![
            "cabin"@,
            quantity_text(cabin_width, "m"@),
            quantity_text(cabin_depth, "m"@),
            "capacity"@,
            decimal(capacity as nat),
            "cycle"@,
            duration_text(cycle),
        ],
    }
}

/// The separators before the middle tokens of a connector.
pub open spec fn middle_seps(c: ConnectorDecl) -> Seq<Seq<char>> {
    match c {
        ConnectorDecl::Lift { .. } => seq![") "@, " "@, " "@, " "@, " "@, " "@, " "@],
        ConnectorDecl::Escalator { .. } => seq![") "@, " "@, " "@, " "@],
        _ => seq![") "@, " "@],
    }
}

/// The keyword a connector declaration starts with.
pub open spec fn connector_keyword(c: ConnectorDecl) -> Seq<char> {
    match c {
        ConnectorDecl::Stair { .. } => "stair"@,
        ConnectorDecl::Ramp { .. } => "ramp"@,
        ConnectorDecl::Escalator { .. } => "escalator"@,
        ConnectorDecl::Lift { .. } => "lift"@,
    }
}

/// A connector's optional capacity (a lift has none).
pub open spec fn connector_capacity(c: ConnectorDecl) -> Option<Quantity> {
    match c {
        ConnectorDecl::Stair { capacity, .. } => capacity,
        ConnectorDecl::Ramp { capacity, .. } => capacity,
        ConnectorDecl::Escalator { capacity, .. } => capacity,
        ConnectorDecl::Lift { .. } => None,
    }
}

/// A connector's optional clearance.
pub open spec fn connector_clearance(c: ConnectorDecl) -> Option<Quantity> {
    match c {
        ConnectorDecl::Stair { clearance, .. } => clearance,
        ConnectorDecl::Ramp { clearance, .. } => clearance,
        ConnectorDecl::Escalator { clearance, .. } => clearance,
        ConnectorDecl::Lift { clearance, .. } => clearance,
    }
}

/// The canonical tokens of a connector declaration: its optional clauses
/// in a fixed order, capacity before clearance.
pub open spec fn connector_tokens(c: ConnectorDecl) -> Seq<Seq<char>> {
    seq![connector_keyword(c)] + ends_tokens(connector_decl_ends(c)) + connector_middle(c) + option_tokens(
        connector_capacity(c),
        "capacity"@,
        "/s"@,
    ) + option_tokens(connector_clearance(c), "clearance"@, "m"@)
}

/// The separators before the canonical tokens of a connector.
pub open spec fn connector_seps(c: ConnectorDecl) -> Seq<Seq<char>> {
    seq![""@] + ends_seps() + middle_seps(c) + option_seps(connector_capacity(c)) + option_seps(
        connector_clearance(c),
    )
}

/// What a connector's line holds between its far end and its optional
/// clauses.
pub open spec fn middle_text(c: ConnectorDecl) -> Seq<char> {
    match c {
        ConnectorDecl::Stair { width, .. } => " width "@ + quantity_text(width, "m"@),
        ConnectorDecl::Ramp { width, .. } => " width "@ + quantity_text(width, "m"@),
        ConnectorDecl::Escalator { width, belt_speed, .. } => " width "@ + quantity_text(width, "m"@)
            + " belt "@ + quantity_text(belt_speed, "m/s"@),
        ConnectorDecl::Lift { cabin_width, cabin_depth, capacity, cycle, .. } => " cabin "@
            + quantity_text(cabin_width, "m"@) + " "@ + quantity_text(cabin_depth, "m"@)
            + " capacity "@ + decimal(capacity as nat) + " cycle "@ + duration_text(cycle),
    }
}

#[verifier::spinoff_prover]
#[verifier::rlimit(50)]
proof fn lemma_middle_text(c: ConnectorDecl)
    ensures
        ")"@ + middle_text(c) == prefixed(connector_middle(c), middle_seps(c)),
{
    let tv = connector_middle(c);
    let seps = middle_seps(c);
    lemma_prefixed_unrolled(tv, seps);
    reveal_strlit(" ");
    reveal_strlit(")");
    reveal_strlit(") ");
    reveal_strlit(" width ");
    reveal_strlit("width");
    reveal_strlit(" belt ");
    reveal_strlit("belt");
    reveal_strlit(" cabin ");
    reveal_strlit("cabin");
    reveal_strlit(" capacity ");
    reveal_strlit("capacity");
    reveal_strlit(" cycle ");
    reveal_strlit("cycle");
    match c {
        ConnectorDecl::Lift { .. } => {
            lemma_prefixed_step(tv, seps, 0);
            lemma_prefixed_step(tv, seps, 1);
            lemma_prefixed_step(tv, seps, 2);
            lemma_prefixed_step(tv, seps, 3);
            lemma_prefixed_step(tv, seps, 4);
            lemma_prefixed_step(tv, seps, 5);
            lemma_prefixed_step(tv, seps, 6);
        },
        ConnectorDecl::Escalator { .. } => {
            lemma_prefixed_step(tv, seps, 0);
            lemma_prefixed_step(tv, seps, 1);
            lemma_prefixed_step(tv, seps, 2);
            lemma_prefixed_step(tv, seps, 3);
        },
        _ => {
            lemma_prefixed_step(tv, seps, 0);
            lemma_prefixed_step(tv, seps, 1);
        },
    }
    assert(")"@ + middle_text(c) =~= prefixed(tv, seps));
}

/// A connector's line in its parts: keyword and ends, middle, and the two
/// optional clauses.
#[verifier::spinoff_prover]
#[verifier::rlimit(100)]
proof fn lemma_connector_parts(c: ConnectorDecl)
    ensures
        declaration_text(Declaration::Connector(c)) == connector_keyword(c) + " "@ + ends_text(
            connector_decl_ends(c),
        ) + middle_text(c) + option_text(connector_capacity(c), " capacity "@, "/s"@) + option_text(
            connector_clearance(c),
            " clearance "@,
            "m"@,
        ),
{
    let e = connector_decl_ends(c);
    assert(declaration_text(Declaration::Connector(c)) == connector_text(c));
    let o2 = option_text(connector_clearance(c), " clearance "@, "m"@);
    match c {
        ConnectorDecl::Stair { ends, width, capacity, clearance } => {
            assert("stair "@ =~= "stair"@ + " "@) by {
                reveal_strlit("stair ");
                reveal_strlit("stair");
                reveal_strlit(" ");
            }
            assert(connector_text(c) =~= "stair"@ + " "@ + ends_text(e) + middle_text(c)
                + option_text(capacity, " capacity "@, "/s"@) + o2);
        },
        ConnectorDecl::Ramp { ends, width, capacity, clearance } => {
            assert("ramp "@ =~= "ramp"@ + " "@) by {
                reveal_strlit("ramp ");
                reveal_strlit("ramp");
                reveal_strlit(" ");
            }
            assert(connector_text(c) =~= "ramp"@ + " "@ + ends_text(e) + middle_text(c)
                + option_text(capacity, " capacity "@, "/s"@) + o2);
        },
        ConnectorDecl::Escalator { ends, width, belt_speed, capacity, clearance } => {
            assert("escalator "@ =~= "escalator"@ + " "@) by {
                reveal_strlit("escalator ");
                reveal_strlit("escalator");
                reveal_strlit(" ");
            }
            assert(connector_text(c) =~= "escalator"@ + " "@ + ends_text(e) + middle_text(c)
                + option_text(capacity, " capacity "@, "/s"@) + o2);
        },
        ConnectorDecl::Lift { .. } => {
            assert("lift "@ =~= "lift"@ + " "@) by {
                reveal_strlit("lift ");
                reveal_strlit("lift");
                reveal_strlit(" ");
            }
            assert(option_text(connector_capacity(c), " capacity "@, "/s"@) =~= Seq::<char>::empty());
            assert(connector_text(c) =~= "lift"@ + " "@ + ends_text(e) + middle_text(c)
                + option_text(connector_capacity(c), " capacity "@, "/s"@) + o2);
        },
    }
}

/// A connector's canonical line is its canonical tokens, each after its
/// separator.
#[verifier::spinoff_prover]
#[verifier::rlimit(50)]
proof fn lemma_connector_text(c: ConnectorDecl)
    ensures
        declaration_text(Declaration::Connector(c)) == prefixed(connector_tokens(c), connector_seps(c)) + ""@,
{
    let k = connector_keyword(c);
    let e = connector_decl_ends(c);
    lemma_connector_parts(c);
    lemma_ends_text(k, e);
    lemma_middle_text(c);
    assert(" capacity "@ == " "@ + "capacity"@ + " "@ && " clearance "@ == " "@ + "clearance"@ + " "@) by {
        reveal_strlit(" capacity ");
        reveal_strlit("capacity");
        reveal_strlit(" clearance ");
        reveal_strlit("clearance");
        reveal_strlit(" ");
    }
    lemma_option_text(connector_capacity(c), " capacity "@, "capacity"@, "/s"@);
    lemma_option_text(connector_clearance(c), " clearance "@, "clearance"@, "m"@);
    let a = seq![k] + ends_tokens(e);
    let sa = seq![""@] + ends_seps();
    let m = connector_middle(c);
    let sm = middle_seps(c);
    let ct = option_tokens(connector_capacity(c), "capacity"@, "/s"@);
    let cs = option_seps(connector_capacity(c));
    let lt = option_tokens(connector_clearance(c), "clearance"@, "m"@);
    let ls = option_seps(connector_clearance(c));
    assert(m.len() == sm.len());
    assert(ct.len() == cs.len());
    assert(lt.len() == ls.len());
    lemma_prefixed_concat(a, sa, m, sm);
    lemma_prefixed_concat(a + m, sa + sm, ct, cs);
    lemma_prefixed_concat(a + m + ct, sa + sm + cs, lt, ls);
    assert(connector_tokens(c) == a + m + ct + lt);
    assert(connector_seps(c) == sa + sm + cs + ls);
    let x = prefixed(a, sa);
    let o1 = option_text(connector_capacity(c), " capacity "@, "/s"@);
    let o2 = option_text(connector_clearance(c), " clearance "@, "m"@);
    assert((x + ")"@) + middle_text(c) + o1 + o2 =~= x + (")"@ + middle_text(c)) + o1 + o2);
    assert(prefixed(connector_tokens(c), connector_seps(c)) + ""@ =~= prefixed(connector_tokens(c), connector_seps(c))) by {
        reveal_strlit("");
    }
}

proof fn lemma_digit_char(d: int)
    requires
        0 <= d < 10,
    ensures
        is_ascii_digit(digit_char(d)),
        digit_value(digit_char(d)) == d,
{
}

/// The decimal rendering of a number is digits that read back as that number.
pub proof fn lemma_decimal_reads_back(n: nat)
    ensures
        decimal(n).len() > 0,
        forall|i: int| 0 <= i < decimal(n).len() ==> is_ascii_digit(#[trigger] decimal(n)[i]),
        digits_value(decimal(n)) == n,
        unsigned_literal(decimal(n)) == Some(n),
    decreases n,
{
    if n < 10 {
        lemma_digit_char(n as int);
        let s = decimal(n);
        assert(s.drop_last() =~= Seq::<char>::empty());
        assert(s.last() == digit_char(n as int));
        assert(digits_value(s) == digits_value(s.drop_last()) * 10 + digit_value(s.last()));
    } else {
        let q = n / 10;
        let r = n % 10;
        assert(n == q * 10 + r && 0 <= r < 10 && q < n) by (nonlinear_arith)
            requires
                n >= 10,
                q == n / 10,
                r == n % 10,
        ;
        lemma_decimal_reads_back(q as nat);
        lemma_digit_char(r as int);
        let s = decimal(n);
        assert(s == decimal(q as nat).push(digit_char(r as int)));
        assert(s.drop_last() =~= decimal(q as nat));
        assert(s.last() == digit_char(r as int));
        assert(digits_value(s) == digits_value(s.drop_last()) * 10 + digit_value(s.last()));
        assert forall|i: int| 0 <= i < s.len() implies is_ascii_digit(#[trigger] s[i]) by {
            if i < s.len() - 1 {
                assert(s[i] == decimal(q as nat)[i]);
            }
        }
    }
    let s = decimal(n);
    assert(is_ascii_digit(s[0]));
    assert(s[0] != '+');
    assert(crate::literal::is_digits(s));
}

/// A number in canonical form is a canonical word.
pub(crate) proof fn lemma_decimal_word(n: nat)
    ensures
        canonical_word(decimal(n)),
{
    lemma_decimal_reads_back(n);
    assert forall|i: int| 0 <= i < decimal(n).len() implies !is_delimiter(#[trigger] decimal(n)[i]) && decimal(n)[i] != '"' && decimal(n)[i] != '#' by {
        assert(is_ascii_digit(decimal(n)[i]));
    }
}

/// `KEYWORD VALUE`, two canonical words with a blank between, reads back
/// as those two words.
pub(crate) proof fn lemma_keyword_value_line(k: Seq<char>, v: Seq<char>)
    requires
        canonical_word(k),
        canonical_word(v),
    ensures
        line_tokens(k + " "@ + v) == Ok::<Seq<Seq<char>>, Seq<char>>(seq![k, v]),
        single_line(k + " "@ + v),
{
    lemma_separators();
    let tv = seq![k, v];
    let seps = seq![""@, " "@];
    lemma_prefixed_unrolled(tv, seps);
    lemma_prefixed_step(tv, seps, 0);
    lemma_prefixed_step(tv, seps, 1);
    assert(k + " "@ + v =~= prefixed(tv, seps) + ""@);
    assert forall|i: int| 0 <= i < tv.len() implies canonical_word(#[trigger] tv[i]) by {}
    assert forall|i: int| 0 <= i < seps.len() implies inline_separator(#[trigger] seps[i]) by {}
    assert forall|i: int| 1 <= i < seps.len() implies (#[trigger] seps[i]).len() > 0 by {}
    lemma_line_tokens_of_prefixed(tv, seps, ""@);
}

/// The header keywords are canonical words.
pub(crate) proof fn lemma_header_words()
    ensures
        canonical_word("scenario"@),
        canonical_word("seed"@),
        canonical_word("duration"@),
        canonical_word("timestep"@),
{
    reveal_strlit("scenario");
    reveal_strlit("seed");
    reveal_strlit("duration");
    reveal_strlit("timestep");
}

/// An accepted declaration that the canonical text writes, read from
/// canonical tokens, has a canonical line that reads back.
pub proof fn lemma_declaration_reads_back(
    d: Declaration,
    tv: Seq<Seq<char>>,
    have_name: bool,
    have_seed: bool,
    have_duration: bool,
    have_timestep: bool,
)
    requires
        section_of(d) >= 0,
        declaration_is(d, tv),
        declaration_accepted(tv, have_name, have_seed, have_duration, have_timestep),
        canonical_tokens(tv),
    ensures
        exists|u: Seq<Seq<char>>| reads_back_as(d, u),
{
    lemma_keyword_letters();
    match d {
        Declaration::Surface(x) => {
            lemma_surface_line(x, tv);
        },
        Declaration::Obstacle(x) => {
            lemma_obstacle_line(x, tv);
        },
        Declaration::Waypoint(x) => {
            lemma_waypoint_line(x, tv);
        },
        Declaration::Exit(x) => {
            lemma_exit_line(x, tv);
        },
        Declaration::ConnectorState(x) => {
            lemma_connector_state_line(x, tv);
        },
        Declaration::ExitState(x) => {
            lemma_exit_state_line(x, tv);
        },
        Declaration::GateState(x) => {
            lemma_gate_state_line(x, tv);
        },
        Declaration::ConnectorCapacityState(x) => {
            lemma_capacity_change_line(d, "connector-capacity-state"@, "connector"@, x, tv);
        },
        Declaration::ExitCapacityState(x) => {
            lemma_capacity_change_line(d, "exit-capacity-state"@, "exit"@, x, tv);
        },
        Declaration::GateCapacityState(x) => {
            lemma_capacity_change_line(d, "gate-capacity-state"@, "gate"@, x, tv);
        },
        Declaration::WalkingProfile(x) => {
            lemma_walking_profile_line(x, tv);
        },
        Declaration::Gate(x) => {
            lemma_gate_line(x, tv);
        },
        Declaration::Connector(x) => {
            assert(connector_ok(x, tv));
            lemma_connector_line(x, tv);
        },
        Declaration::Message(x) => {
            lemma_message_line(x, tv);
        },
        Declaration::Countermeasure(x) => {
            lemma_countermeasure_line(x, tv);
        },
        Declaration::Agents(x) => {
            lemma_agents_line(x, tv);
        },
        _ => {},
    }
}

/// The acceptance rule of a connector declaration's kind.
pub open spec fn connector_ok(c: ConnectorDecl, tv: Seq<Seq<char>>) -> bool {
    match c {
        ConnectorDecl::Stair { .. } => walkway_ok(tv),
        ConnectorDecl::Ramp { .. } => walkway_ok(tv),
        ConnectorDecl::Escalator { .. } => escalator_ok(tv),
        ConnectorDecl::Lift { .. } => lift_ok(tv),
    }
}

/// Where a connector's optional clauses start.
pub open spec fn options_start(c: ConnectorDecl) -> int {
    14 + connector_middle(c).len() as int
}

/// Two connector declarations read from the same accepted tokens are
/// written alike.
#[verifier::spinoff_prover]
#[verifier::rlimit(50)]
proof fn lemma_connector_same_text(c1: ConnectorDecl, c2: ConnectorDecl, t: Seq<Seq<char>>)
    requires
        connector_is(c1, t),
        connector_is(c2, t),
        connector_ok(c1, t),
    ensures
        declaration_text(Declaration::Connector(c1)) == declaration_text(Declaration::Connector(c2)),
{
    lemma_keyword_letters();
    reveal_strlit("m");
    reveal_strlit("/s");
    reveal_strlit("m/s");
    assert("m"@ == crate::syntax::meters());
    assert("/s"@ == crate::syntax::per_second());
    assert("m/s"@ == crate::syntax::meters_per_second());
    lemma_connector_parts(c1);
    lemma_connector_parts(c2);
    let e1 = connector_decl_ends(c1);
    let e2 = connector_decl_ends(c2);
    lemma_ends_tokens(e1, t);
    lemma_ends_tokens(e2, t);
    lemma_ends_text_of_tokens(e1, e2);
    assert(connector_keyword(c1) == connector_keyword(c2));
    match (c1, c2) {
        (ConnectorDecl::Stair { width: w1, capacity: a1, clearance: b1, .. }, ConnectorDecl::Stair { width: w2, capacity: a2, clearance: b2, .. })
        | (ConnectorDecl::Ramp { width: w1, capacity: a1, clearance: b1, .. }, ConnectorDecl::Ramp { width: w2, capacity: a2, clearance: b2, .. }) => {
            lemma_same_unit_text(w1, w2, t[15], "m"@);
            lemma_same_options(a1, a2, b1, b2, t, 16);
        },
        (ConnectorDecl::Escalator { width: w1, belt_speed: s1, capacity: a1, clearance: b1, .. }, ConnectorDecl::Escalator { width: w2, belt_speed: s2, capacity: a2, clearance: b2, .. }) => {
            lemma_same_unit_text(w1, w2, t[15], "m"@);
            lemma_same_unit_text(s1, s2, t[17], "m/s"@);
            lemma_same_options(a1, a2, b1, b2, t, 18);
        },
        (ConnectorDecl::Lift { cabin_width: w1, cabin_depth: d1, capacity: n1, cycle: y1, clearance: b1, .. }, ConnectorDecl::Lift { cabin_width: w2, cabin_depth: d2, capacity: n2, cycle: y2, clearance: b2, .. }) => {
            lemma_same_unit_text(w1, w2, t[15], "m"@);
            lemma_same_unit_text(d1, d2, t[16], "m"@);
            assert(n1 == n2);
            lemma_duration_token(y1, t[20]);
            lemma_duration_token(y2, t[20]);
            let o = final_clearance(t, 21);
            if let (Some(q1), Some(q2)) = (b1, b2) {
                let k = o->0->0;
                lemma_same_unit_text(q1, q2, t[k], "m"@);
            }
        },
        _ => {},
    }
}

proof fn lemma_same_options(
    a1: Option<Quantity>,
    a2: Option<Quantity>,
    b1: Option<Quantity>,
    b2: Option<Quantity>,
    t: Seq<Seq<char>>,
    start: int,
)
    requires
        connector_options(t, start) matches Some(o) && quantity_option_is(a1, o.0, t, |q: Quantity, w: Seq<char>| rate_is(q, w))
            && quantity_option_is(b1, o.1, t, |q: Quantity, w: Seq<char>| length_is(q, w)) && quantity_option_is(
            a2,
            o.0,
            t,
            |q: Quantity, w: Seq<char>| rate_is(q, w),
        ) && quantity_option_is(b2, o.1, t, |q: Quantity, w: Seq<char>| length_is(q, w)),
    ensures
        option_text(a1, " capacity "@, "/s"@) == option_text(a2, " capacity "@, "/s"@),
        option_text(b1, " clearance "@, "m"@) == option_text(b2, " clearance "@, "m"@),
{
    reveal_strlit("m");
    reveal_strlit("/s");
    assert("m"@ == crate::syntax::meters());
    assert("/s"@ == crate::syntax::per_second());
    let o = connector_options(t, start)->0;
    if let (Some(q1), Some(q2)) = (a1, a2) {
        let k = o.0->0;
        lemma_same_unit_text(q1, q2, t[k], "/s"@);
    }
    if let (Some(q1), Some(q2)) = (b1, b2) {
        let k = o.1->0;
        lemma_same_unit_text(q1, q2, t[k], "m"@);
    }
}

/// The canonical tokens of a connector agree with the tokens it was read
/// from up to its optional clauses, but for a lift's capacity, which is
/// written in decimal.
#[verifier::spinoff_prover]
#[verifier::rlimit(50)]
proof fn lemma_connector_prefix(c: ConnectorDecl, tv: Seq<Seq<char>>)
    requires
        connector_is(c, tv),
        connector_ok(c, tv),
    ensures
        tv.len() >= options_start(c),
        connector_tokens(c).len() >= options_start(c),
        forall|i: int| 0 <= i < options_start(c) && !(c is Lift && i == 18) ==> #[trigger] connector_tokens(c)[i] == tv[i],
        c matches ConnectorDecl::Lift { capacity, .. } ==> connector_tokens(c)[18] == decimal(capacity as nat)
            && unsigned_literal(tv[18]) == Some(capacity as nat),
{
    lemma_keyword_letters();
    reveal_strlit("m");
    reveal_strlit("m/s");
    assert("m"@ == crate::syntax::meters());
    assert("m/s"@ == crate::syntax::meters_per_second());
    let e = connector_decl_ends(c);
    lemma_ends_tokens(e, tv);
    let u = connector_tokens(c);
    let a = seq![connector_keyword(c)] + ends_tokens(e);
    let m = connector_middle(c);
    assert forall|i: int| 0 <= i < 14 implies #[trigger] u[i] == tv[i] by {
        if i == 0 {
        } else {
            assert(u[i] == ends_tokens(e)[i - 1]);
            assert(tv.subrange(1, 14)[i - 1] == tv[i]);
        }
    }
    assert forall|i: int| 14 <= i < options_start(c) implies #[trigger] u[i] == m[i - 14] by {}
    match c {
        ConnectorDecl::Stair { width, .. } | ConnectorDecl::Ramp { width, .. } => {
            lemma_unit_token(width, tv[15], "m"@);
        },
        ConnectorDecl::Escalator { width, belt_speed, .. } => {
            lemma_unit_token(width, tv[15], "m"@);
            lemma_unit_token(belt_speed, tv[17], "m/s"@);
        },
        ConnectorDecl::Lift { cabin_width, cabin_depth, cycle, .. } => {
            lemma_unit_token(cabin_width, tv[15], "m"@);
            lemma_unit_token(cabin_depth, tv[16], "m"@);
            lemma_duration_token(cycle, tv[20]);
        },
    }
}

proof fn lemma_tail_of_concat(head: Seq<Seq<char>>, ct: Seq<Seq<char>>, lt: Seq<Seq<char>>)
    ensures
        (head + ct + lt).subrange(head.len() as int, (head + ct + lt).len() as int) == ct + lt,
        forall|i: int| 0 <= i < head.len() ==> #[trigger] (head + ct + lt)[i] == head[i],
        forall|i: int| 0 <= i < ct.len() ==> #[trigger] (head + ct + lt)[head.len() + i] == ct[i],
        forall|i: int| 0 <= i < lt.len() ==> #[trigger] (head + ct + lt)[head.len() + ct.len() + i] == lt[i],
{
    assert((head + ct + lt).subrange(head.len() as int, (head + ct + lt).len() as int) =~= ct + lt);
}

/// The head of a connector's canonical tokens: keyword, ends and middle.
pub open spec fn connector_head(c: ConnectorDecl) -> Seq<Seq<char>> {
    seq![connector_keyword(c)] + ends_tokens(connector_decl_ends(c)) + connector_middle(c)
}

proof fn lemma_connector_tokens_split(c: ConnectorDecl)
    ensures
        connector_tokens(c) == connector_head(c) + option_tokens(connector_capacity(c), "capacity"@, "/s"@)
            + option_tokens(connector_clearance(c), "clearance"@, "m"@),
        connector_head(c).len() == options_start(c),
{
}

/// The option values of a connector are canonical tokens of the kind their
/// clause asks for.
#[verifier::spinoff_prover]
#[verifier::rlimit(50)]
proof fn lemma_connector_option_values(c: ConnectorDecl, tv: Seq<Seq<char>>)
    requires
        connector_is(c, tv),
        canonical_tokens(tv),
    ensures
        connector_capacity(c) matches Some(q) ==> rate_ok(quantity_text(q, "/s"@)) && canonical_word(quantity_text(q, "/s"@))
            && rate_is(q, quantity_text(q, "/s"@)),
        connector_clearance(c) matches Some(q) ==> length_ok(quantity_text(q, "m"@)) && canonical_word(quantity_text(q, "m"@))
            && length_is(q, quantity_text(q, "m"@)),
{
    reveal_strlit("m");
    reveal_strlit("/s");
    assert("m"@ == crate::syntax::meters());
    assert("/s"@ == crate::syntax::per_second());
    match c {
        ConnectorDecl::Lift { clearance, .. } => {
            if let Some(q) = clearance {
                lemma_unit_token(q, tv[final_clearance(tv, 21)->0->0], "m"@);
            }
        },
        ConnectorDecl::Stair { capacity, clearance, .. } | ConnectorDecl::Ramp { capacity, clearance, .. } => {
            let o = connector_options(tv, 16)->0;
            if let Some(q) = capacity {
                lemma_unit_token(q, tv[o.0->0], "/s"@);
            }
            if let Some(q) = clearance {
                lemma_unit_token(q, tv[o.1->0], "m"@);
            }
        },
        ConnectorDecl::Escalator { capacity, clearance, .. } => {
            let o = connector_options(tv, 18)->0;
            if let Some(q) = capacity {
                lemma_unit_token(q, tv[o.0->0], "/s"@);
            }
            if let Some(q) = clearance {
                lemma_unit_token(q, tv[o.1->0], "m"@);
            }
        },
    }
}

/// In canonical order, a connector's optional clauses read back at their
/// places.
proof fn lemma_connector_options_canonical(c: ConnectorDecl, tv: Seq<Seq<char>>)
    requires
        connector_is(c, tv),
        canonical_tokens(tv),
    ensures
        !(c is Lift) ==> connector_options(connector_tokens(c), options_start(c)) == Some((
            option_index(connector_capacity(c), options_start(c) + 1),
            option_index(
                connector_clearance(c),
                options_start(c) + option_tokens(connector_capacity(c), "capacity"@, "/s"@).len() + 1,
            ),
        )),
        c is Lift ==> final_clearance(connector_tokens(c), 21) == Some(option_index(connector_clearance(c), 22)),
{
    lemma_connector_option_values(c, tv);
    lemma_connector_tokens_split(c);
    let head = connector_head(c);
    let ct = option_tokens(connector_capacity(c), "capacity"@, "/s"@);
    let lt = option_tokens(connector_clearance(c), "clearance"@, "m"@);
    lemma_tail_of_concat(head, ct, lt);
    if c is Lift {
        assert(ct == Seq::<Seq<char>>::empty());
        assert(ct + lt =~= lt);
        lemma_canonical_final_clearance(connector_tokens(c), options_start(c), connector_clearance(c));
    } else {
        lemma_canonical_options(connector_tokens(c), options_start(c), connector_capacity(c), connector_clearance(c));
    }
}

proof fn lemma_canonical_from_parts(
    u: Seq<Seq<char>>,
    tv: Seq<Seq<char>>,
    head: Seq<Seq<char>>,
    ct: Seq<Seq<char>>,
    lt: Seq<Seq<char>>,
    special: int,
)
    requires
        u == head + ct + lt,
        tv.len() >= head.len(),
        forall|i: int| 0 <= i < head.len() && i != special ==> #[trigger] head[i] == tv[i],
        0 <= special < head.len() ==> canonical_word(head[special]),
        canonical_tokens(tv),
        canonical_tokens(ct),
        canonical_tokens(lt),
    ensures
        canonical_tokens(u),
{
    lemma_tail_of_concat(head, ct, lt);
    assert forall|i: int| 0 <= i < u.len() implies canonical_word(#[trigger] u[i]) by {
        if i < head.len() {
            assert(u[i] == head[i]);
            if i != special {
                assert(head[i] == tv[i]);
            }
        } else if i < head.len() + ct.len() {
            assert(u[i] == ct[i - head.len()]);
        } else {
            assert(u[i] == lt[i - head.len() - ct.len()]);
        }
    }
}

proof fn lemma_option_tokens_canonical(q: Option<Quantity>, word: Seq<char>, unit: Seq<char>)
    requires
        canonical_word(word),
        q matches Some(v) ==> canonical_word(quantity_text(v, unit)),
    ensures
        canonical_tokens(option_tokens(q, word, unit)),
{
}

#[verifier::spinoff_prover]
#[verifier::rlimit(50)]
proof fn lemma_connector_tokens_canonical_walkway(c: ConnectorDecl, tv: Seq<Seq<char>>)
    requires
        c is Stair || c is Ramp,
        connector_is(c, tv),
        connector_ok(c, tv),
        canonical_tokens(tv),
    ensures
        canonical_tokens(connector_tokens(c)),
{
    let head = connector_head(c);
    let ct = option_tokens(connector_capacity(c), "capacity"@, "/s"@);
    let lt = option_tokens(connector_clearance(c), "clearance"@, "m"@);
    lemma_connector_prefix(c, tv);
    lemma_connector_option_values(c, tv);
    lemma_connector_tokens_split(c);
    assert(canonical_word("capacity"@) && canonical_word("clearance"@)) by {
        reveal_strlit("capacity");
        reveal_strlit("clearance");
    }
    lemma_option_tokens_canonical(connector_capacity(c), "capacity"@, "/s"@);
    lemma_option_tokens_canonical(connector_clearance(c), "clearance"@, "m"@);
    let special = -1int;
    assert forall|i: int| 0 <= i < head.len() && i != special implies #[trigger] head[i] == tv[i] by {
        assert(connector_tokens(c)[i] == head[i]);
    }
    lemma_canonical_from_parts(connector_tokens(c), tv, head, ct, lt, special);
}

#[verifier::spinoff_prover]
#[verifier::rlimit(50)]
proof fn lemma_connector_tokens_canonical_escalator(c: ConnectorDecl, tv: Seq<Seq<char>>)
    requires
        c is Escalator,
        connector_is(c, tv),
        connector_ok(c, tv),
        canonical_tokens(tv),
    ensures
        canonical_tokens(connector_tokens(c)),
{
    let head = connector_head(c);
    let ct = option_tokens(connector_capacity(c), "capacity"@, "/s"@);
    let lt = option_tokens(connector_clearance(c), "clearance"@, "m"@);
    lemma_connector_prefix(c, tv);
    lemma_connector_option_values(c, tv);
    lemma_connector_tokens_split(c);
    assert(canonical_word("capacity"@) && canonical_word("clearance"@)) by {
        reveal_strlit("capacity");
        reveal_strlit("clearance");
    }
    lemma_option_tokens_canonical(connector_capacity(c), "capacity"@, "/s"@);
    lemma_option_tokens_canonical(connector_clearance(c), "clearance"@, "m"@);
    let special = -1int;
    assert forall|i: int| 0 <= i < head.len() && i != special implies #[trigger] head[i] == tv[i] by {
        assert(connector_tokens(c)[i] == head[i]);
    }
    lemma_canonical_from_parts(connector_tokens(c), tv, head, ct, lt, special);
}

#[verifier::spinoff_prover]
#[verifier::rlimit(50)]
proof fn lemma_connector_tokens_canonical_lift(c: ConnectorDecl, tv: Seq<Seq<char>>)
    requires
        c is Lift,
        connector_is(c, tv),
        connector_ok(c, tv),
        canonical_tokens(tv),
    ensures
        canonical_tokens(connector_tokens(c)),
{
    let head = connector_head(c);
    let ct = option_tokens(connector_capacity(c), "capacity"@, "/s"@);
    let lt = option_tokens(connector_clearance(c), "clearance"@, "m"@);
    lemma_connector_prefix(c, tv);
    lemma_connector_option_values(c, tv);
    lemma_connector_tokens_split(c);
    assert(canonical_word("capacity"@) && canonical_word("clearance"@)) by {
        reveal_strlit("capacity");
        reveal_strlit("clearance");
    }
    lemma_option_tokens_canonical(connector_capacity(c), "capacity"@, "/s"@);
    lemma_option_tokens_canonical(connector_clearance(c), "clearance"@, "m"@);
    let special = 18int;
    if let ConnectorDecl::Lift { capacity, .. } = c {
        lemma_decimal_word(capacity as nat);
    }
    assert forall|i: int| 0 <= i < head.len() && i != special implies #[trigger] head[i] == tv[i] by {
        assert(connector_tokens(c)[i] == head[i]);
    }
    lemma_canonical_from_parts(connector_tokens(c), tv, head, ct, lt, special);
}

/// The canonical tokens of an accepted connector are canonical words.
proof fn lemma_connector_tokens_canonical(c: ConnectorDecl, tv: Seq<Seq<char>>)
    requires
        connector_is(c, tv),
        connector_ok(c, tv),
        canonical_tokens(tv),
    ensures
        canonical_tokens(connector_tokens(c)),
{
    if c is Lift {
        lemma_connector_tokens_canonical_lift(c, tv);
    } else if c is Escalator {
        lemma_connector_tokens_canonical_escalator(c, tv);
    } else {
        lemma_connector_tokens_canonical_walkway(c, tv);
    }
}

#[verifier::spinoff_prover]
#[verifier::rlimit(100)]
proof fn lemma_connector_reads_itself_walkway(c: ConnectorDecl, tv: Seq<Seq<char>>)
    requires
        c is Stair || c is Ramp,
        connector_is(c, tv),
        connector_ok(c, tv),
        canonical_tokens(tv),
    ensures
        connector_is(c, connector_tokens(c)),
        connector_ok(c, connector_tokens(c)),
{
    let u = connector_tokens(c);
    let head = connector_head(c);
    let ct = option_tokens(connector_capacity(c), "capacity"@, "/s"@);
    let lt = option_tokens(connector_clearance(c), "clearance"@, "m"@);
    lemma_connector_prefix(c, tv);
    lemma_connector_option_values(c, tv);
    lemma_connector_options_canonical(c, tv);
    lemma_connector_tokens_split(c);
    lemma_tail_of_concat(head, ct, lt);
    assert(u[0] == tv[0] && u[1] == tv[1] && u[2] == tv[2] && u[3] == tv[3] && u[4] == tv[4]);
    assert(u[5] == tv[5] && u[6] == tv[6] && u[7] == tv[7] && u[8] == tv[8] && u[9] == tv[9]);
    assert(u[10] == tv[10] && u[11] == tv[11] && u[12] == tv[12] && u[13] == tv[13]);
    assert(u[14] == tv[14] && u[15] == tv[15]);
    match c {
        ConnectorDecl::Stair { capacity, clearance, .. } | ConnectorDecl::Ramp { capacity, clearance, .. } => {
            if let Some(q) = capacity {
                assert(u[17] == ct[1]);
            }
            if let Some(q) = clearance {
                assert(u[16 + ct.len() + 1int] == lt[1]);
            }
        },
        _ => {},
    }
}

#[verifier::spinoff_prover]
#[verifier::rlimit(100)]
proof fn lemma_connector_reads_itself_escalator(c: ConnectorDecl, tv: Seq<Seq<char>>)
    requires
        c is Escalator,
        connector_is(c, tv),
        connector_ok(c, tv),
        canonical_tokens(tv),
    ensures
        connector_is(c, connector_tokens(c)),
        connector_ok(c, connector_tokens(c)),
{
    let u = connector_tokens(c);
    let head = connector_head(c);
    let ct = option_tokens(connector_capacity(c), "capacity"@, "/s"@);
    let lt = option_tokens(connector_clearance(c), "clearance"@, "m"@);
    lemma_connector_prefix(c, tv);
    lemma_connector_option_values(c, tv);
    lemma_connector_options_canonical(c, tv);
    lemma_connector_tokens_split(c);
    lemma_tail_of_concat(head, ct, lt);
    assert(u[0] == tv[0] && u[1] == tv[1] && u[2] == tv[2] && u[3] == tv[3] && u[4] == tv[4]);
    assert(u[5] == tv[5] && u[6] == tv[6] && u[7] == tv[7] && u[8] == tv[8] && u[9] == tv[9]);
    assert(u[10] == tv[10] && u[11] == tv[11] && u[12] == tv[12] && u[13] == tv[13]);
    assert(u[14] == tv[14] && u[15] == tv[15]);
    match c {
        ConnectorDecl::Escalator { capacity, clearance, .. } => {
            assert(u[16] == tv[16] && u[17] == tv[17]);
            if let Some(q) = capacity {
                assert(u[19] == ct[1]);
            }
            if let Some(q) = clearance {
                assert(u[18 + ct.len() + 1int] == lt[1]);
            }
        },
        _ => {},
    }
}

#[verifier::spinoff_prover]
#[verifier::rlimit(100)]
proof fn lemma_connector_reads_itself_lift(c: ConnectorDecl, tv: Seq<Seq<char>>)
    requires
        c is Lift,
        connector_is(c, tv),
        connector_ok(c, tv),
        canonical_tokens(tv),
    ensures
        connector_is(c, connector_tokens(c)),
        connector_ok(c, connector_tokens(c)),
{
    let u = connector_tokens(c);
    let head = connector_head(c);
    let ct = option_tokens(connector_capacity(c), "capacity"@, "/s"@);
    let lt = option_tokens(connector_clearance(c), "clearance"@, "m"@);
    lemma_connector_prefix(c, tv);
    lemma_connector_option_values(c, tv);
    lemma_connector_options_canonical(c, tv);
    lemma_connector_tokens_split(c);
    lemma_tail_of_concat(head, ct, lt);
    assert(u[0] == tv[0] && u[1] == tv[1] && u[2] == tv[2] && u[3] == tv[3] && u[4] == tv[4]);
    assert(u[5] == tv[5] && u[6] == tv[6] && u[7] == tv[7] && u[8] == tv[8] && u[9] == tv[9]);
    assert(u[10] == tv[10] && u[11] == tv[11] && u[12] == tv[12] && u[13] == tv[13]);
    assert(u[14] == tv[14] && u[15] == tv[15]);
    match c {
        ConnectorDecl::Lift { capacity, clearance, .. } => {
            assert(u[16] == tv[16] && u[17] == tv[17] && u[19] == tv[19] && u[20] == tv[20]);
            lemma_decimal_reads_back(capacity as nat);
            if let Some(q) = clearance {
                assert(u[22] == lt[1]);
            }
        },
        _ => {},
    }
}

/// A connector reads its own canonical tokens, which its kind accepts.
proof fn lemma_connector_reads_itself(c: ConnectorDecl, tv: Seq<Seq<char>>)
    requires
        connector_is(c, tv),
        connector_ok(c, tv),
        canonical_tokens(tv),
    ensures
        connector_is(c, connector_tokens(c)),
        connector_ok(c, connector_tokens(c)),
{
    if c is Lift {
        lemma_connector_reads_itself_lift(c, tv);
    } else if c is Escalator {
        lemma_connector_reads_itself_escalator(c, tv);
    } else {
        lemma_connector_reads_itself_walkway(c, tv);
    }
}

/// The separators of a connector's canonical line are canonical, and all
/// but the first are nonempty.
proof fn lemma_connector_seps(c: ConnectorDecl)
    ensures
        connector_seps(c).len() == connector_tokens(c).len(),
        forall|i: int| 0 <= i < connector_seps(c).len() ==> inline_separator(#[trigger] connector_seps(c)[i]),
        forall|i: int| 1 <= i < connector_seps(c).len() ==> (#[trigger] connector_seps(c)[i]).len() > 0,
{
    lemma_separators();
    let a = seq![""@] + ends_seps();
    let m = middle_seps(c);
    let o1 = option_seps(connector_capacity(c));
    let o2 = option_seps(connector_clearance(c));
    let all = a + m + o1 + o2;
    assert(connector_seps(c) == all);
    assert forall|i: int| 0 <= i < all.len() implies inline_separator(#[trigger] all[i]) && (i >= 1 ==> all[i].len() > 0) by {
        if i < a.len() {
            assert(all[i] == a[i]);
        } else if i < a.len() + m.len() {
            assert(all[i] == m[i - a.len()]);
        } else if i < a.len() + m.len() + o1.len() {
            assert(all[i] == o1[i - a.len() - m.len()]);
        } else {
            assert(all[i] == o2[i - a.len() - m.len() - o1.len()]);
        }
    }
}

/// The canonical line of a connector declaration reads back as its
/// canonical tokens, and whatever those tokens denote is written as the same
/// line.
#[verifier::spinoff_prover]
#[verifier::rlimit(100)]
pub proof fn lemma_connector_line(c: ConnectorDecl, tv: Seq<Seq<char>>)
    requires
        connector_is(c, tv),
        connector_ok(c, tv),
        canonical_tokens(tv),
    ensures
        reads_back_as(Declaration::Connector(c), connector_tokens(c)),
{
    lemma_keyword_letters();
    let u = connector_tokens(c);
    let seps = connector_seps(c);
    lemma_connector_text(c);
    lemma_connector_tokens_canonical(c, tv);
    lemma_connector_seps(c);
    lemma_separators();
    lemma_line_tokens_of_prefixed(u, seps, ""@);
    lemma_connector_reads_itself(c, tv);
    lemma_connector_tokens_split(c);
    assert(u[0] == connector_keyword(c));
    lemma_body_accepted(u);
    lemma_connector_denotes(c, u);
}

/// Whatever the canonical tokens of a connector denote is written as the
/// same line.
#[verifier::spinoff_prover]
#[verifier::rlimit(100)]
proof fn lemma_connector_denotes(c: ConnectorDecl, u: Seq<Seq<char>>)
    requires
        connector_is(c, u),
        connector_ok(c, u),
    ensures
        forall|e: Declaration| #[trigger] declaration_is(e, u) ==> declaration_text(e) == declaration_text(
            Declaration::Connector(c),
        ) && section_of(e) == section_of(Declaration::Connector(c)),
{
    lemma_keyword_letters();
    let d = Declaration::Connector(c);
    assert forall|e: Declaration| #[trigger] declaration_is(e, u) implies declaration_text(e) == declaration_text(d)
        && section_of(e) == section_of(d) by {
        if let Declaration::Connector(c2) = e {
            lemma_connector_same_text(c, c2, u);
        }
    }
}

/// The source word of an information source is the token it was read from.
proof fn lemma_source_token(src: InformationSource, t: Seq<char>)
    requires
        information_source_of(t) == Some(src),
    ensures
        information_source_word(src) == t,
{
}

/// A claim's text is the three tokens it was read from.
proof fn lemma_claim_tokens(p: Proposition, kind: Seq<char>, subject: Seq<char>, state: Seq<char>)
    requires
        claim_is(p, kind, subject, state),
    ensures
        proposition_text(p) == kind + " "@ + subject + " "@ + state,
{
    reveal_strlit("connector ");
    reveal_strlit("connector");
    reveal_strlit("exit ");
    reveal_strlit("exit");
    reveal_strlit(" ");
    match p {
        Proposition::ConnectorAvailability { connector, open } => {
            lemma_state_token(open, state);
            assert(proposition_text(p) =~= kind + " "@ + subject + " "@ + state);
        },
        Proposition::ExitAvailability { exit, open } => {
            lemma_state_token(open, state);
            assert(proposition_text(p) =~= kind + " "@ + subject + " "@ + state);
        },
        _ => {},
    }
}

/// Words after their separators, split in two.
pub(crate) proof fn lemma_prefixed_split(words: Seq<Seq<char>>, seps: Seq<Seq<char>>, k: int)
    requires
        words.len() == seps.len(),
        0 <= k <= words.len(),
    ensures
        prefixed(words, seps) == prefixed(words.take(k), seps.take(k)) + prefixed(words.skip(k), seps.skip(k)),
{
    lemma_prefixed_concat(words.take(k), seps.take(k), words.skip(k), seps.skip(k));
    assert(words.take(k) + words.skip(k) =~= words);
    assert(seps.take(k) + seps.skip(k) =~= seps);
}

/// The words of a line after their separators, when each word is known.
#[verifier::spinoff_prover]
#[verifier::rlimit(50)]
pub(crate) proof fn lemma_prefixed_ten(tv: Seq<Seq<char>>, seps: Seq<Seq<char>>)
    requires
        tv.len() == 10,
        seps.len() == 10,
    ensures
        prefixed(tv, seps) == seps[0] + tv[0] + seps[1] + tv[1] + seps[2] + tv[2] + seps[3] + tv[3] + seps[4] + tv[4]
            + seps[5] + tv[5] + seps[6] + tv[6] + seps[7] + tv[7] + seps[8] + tv[8] + seps[9] + tv[9],
{
    lemma_prefixed_unrolled(tv, seps);
    lemma_prefixed_step(tv, seps, 0);
    lemma_prefixed_step(tv, seps, 1);
    lemma_prefixed_step(tv, seps, 2);
    lemma_prefixed_step(tv, seps, 3);
    lemma_prefixed_step(tv, seps, 4);
    lemma_prefixed_step(tv, seps, 5);
    lemma_prefixed_step(tv, seps, 6);
    lemma_prefixed_step(tv, seps, 7);
    lemma_prefixed_step(tv, seps, 8);
    lemma_prefixed_step(tv, seps, 9);
    assert(prefixed(tv, seps) =~= seps[0] + tv[0] + seps[1] + tv[1] + seps[2] + tv[2] + seps[3] + tv[3] + seps[4] + tv[4]
        + seps[5] + tv[5] + seps[6] + tv[6] + seps[7] + tv[7] + seps[8] + tv[8] + seps[9] + tv[9]);
}

#[verifier::spinoff_prover]
#[verifier::rlimit(50)]
pub(crate) proof fn lemma_prefixed_eight(tv: Seq<Seq<char>>, seps: Seq<Seq<char>>)
    requires
        tv.len() == 8,
        seps.len() == 8,
    ensures
        prefixed(tv, seps) == seps[0] + tv[0] + seps[1] + tv[1] + seps[2] + tv[2] + seps[3] + tv[3] + seps[4] + tv[4]
            + seps[5] + tv[5] + seps[6] + tv[6] + seps[7] + tv[7],
{
    lemma_prefixed_unrolled(tv, seps);
    lemma_prefixed_step(tv, seps, 0);
    lemma_prefixed_step(tv, seps, 1);
    lemma_prefixed_step(tv, seps, 2);
    lemma_prefixed_step(tv, seps, 3);
    lemma_prefixed_step(tv, seps, 4);
    lemma_prefixed_step(tv, seps, 5);
    lemma_prefixed_step(tv, seps, 6);
    lemma_prefixed_step(tv, seps, 7);
    assert(prefixed(tv, seps) =~= seps[0] + tv[0] + seps[1] + tv[1] + seps[2] + tv[2] + seps[3] + tv[3] + seps[4] + tv[4]
        + seps[5] + tv[5] + seps[6] + tv[6] + seps[7] + tv[7]);
}

/// The text of a `message` line as its tokens, each after its separator.
/// The first ten tokens of a `message` line, each after its separator: the
/// text up to the origin's last coordinate.
#[verifier::spinoff_prover]
#[verifier::rlimit(100)]
proof fn lemma_message_head_text(m: MessageDecl, tv: Seq<Seq<char>>, seps: Seq<Seq<char>>)
    requires
        tv.len() == 22,
        tv[0] == "message"@,
        tv[1] == m.id@,
        tv[2] == "source"@,
        tv[3] == information_source_word(m.source),
        tv[4] == "on"@,
        tv[5] == m.surface@,
        tv[6] == "at"@,
        tv[7] == quantity_text(m.origin.x, "m"@),
        tv[8] == quantity_text(m.origin.y, "m"@),
        tv[9] == quantity_text(m.origin.z, "m"@),
        tv[10] == "claim"@,
        proposition_text(m.claim) == tv[11] + " "@ + tv[12] + " "@ + tv[13],
        tv[14] == "truth"@,
        tv[15] == if m.truthful { "true"@ } else { "false"@ },
        tv[16] == "time"@,
        tv[17] == duration_text(m.at),
        tv[18] == "reach"@,
        tv[19] == quantity_text(m.reach, "m"@),
        tv[20] == "trust"@,
        tv[21] == m.trust.number@,
        seps == seq![""@, " "@, " "@, " "@, " "@, " "@, " "@, " ("@, ", "@, ", "@, ") "@, " "@, " "@, " "@, " "@, " "@, " "@, " "@, " "@, " "@, " "@, " "@],
    ensures
        "message "@ + m.id@ + " source "@ + information_source_word(m.source) + " on "@ + m.surface@
            + " at "@ + "("@ + quantity_text(m.origin.x, "m"@) + ", "@ + quantity_text(m.origin.y, "m"@) + ", "@
            + quantity_text(m.origin.z, "m"@) == prefixed(tv.take(10), seps.take(10)),
{
    let a = tv.take(10);
    let sa = seps.take(10);
    assert(a[0] == tv[0] && a[1] == tv[1] && a[2] == tv[2] && a[3] == tv[3] && a[4] == tv[4]);
    assert(a[5] == tv[5] && a[6] == tv[6] && a[7] == tv[7] && a[8] == tv[8] && a[9] == tv[9]);
    assert(sa[0] == seps[0] && sa[1] == seps[1] && sa[2] == seps[2] && sa[3] == seps[3] && sa[4] == seps[4]);
    assert(sa[5] == seps[5] && sa[6] == seps[6] && sa[7] == seps[7] && sa[8] == seps[8] && sa[9] == seps[9]);
    lemma_prefixed_ten(a, sa);
    reveal_strlit("message ");
    reveal_strlit("message");
    reveal_strlit("");
    reveal_strlit(" ");
    reveal_strlit(" source ");
    reveal_strlit("source");
    reveal_strlit(" on ");
    reveal_strlit("on");
    reveal_strlit(" at ");
    reveal_strlit("at");
    reveal_strlit(" (");
    reveal_strlit("(");
    reveal_strlit(", ");
    assert("message "@ + m.id@ + " source "@ + information_source_word(m.source) + " on "@ + m.surface@
        + " at "@ + "("@ + quantity_text(m.origin.x, "m"@) + ", "@ + quantity_text(m.origin.y, "m"@) + ", "@
        + quantity_text(m.origin.z, "m"@) =~= prefixed(a, sa));
}

/// The last twelve tokens of a `message` line, each after its separator: the
/// text from the origin's closing parenthesis on.
#[verifier::spinoff_prover]
#[verifier::rlimit(100)]
proof fn lemma_message_tail_text(m: MessageDecl, tv: Seq<Seq<char>>, seps: Seq<Seq<char>>)
    requires
        tv.len() == 22,
        tv[0] == "message"@,
        tv[1] == m.id@,
        tv[2] == "source"@,
        tv[3] == information_source_word(m.source),
        tv[4] == "on"@,
        tv[5] == m.surface@,
        tv[6] == "at"@,
        tv[7] == quantity_text(m.origin.x, "m"@),
        tv[8] == quantity_text(m.origin.y, "m"@),
        tv[9] == quantity_text(m.origin.z, "m"@),
        tv[10] == "claim"@,
        proposition_text(m.claim) == tv[11] + " "@ + tv[12] + " "@ + tv[13],
        tv[14] == "truth"@,
        tv[15] == if m.truthful { "true"@ } else { "false"@ },
        tv[16] == "time"@,
        tv[17] == duration_text(m.at),
        tv[18] == "reach"@,
        tv[19] == quantity_text(m.reach, "m"@),
        tv[20] == "trust"@,
        tv[21] == m.trust.number@,
        seps == seq![""@, " "@, " "@, " "@, " "@, " "@, " "@, " ("@, ", "@, ", "@, ") "@, " "@, " "@, " "@, " "@, " "@, " "@, " "@, " "@, " "@, " "@, " "@],
    ensures
        ")"@ + " claim "@ + proposition_text(m.claim) + " truth "@ + (if m.truthful {
            "true"@
        } else {
            "false"@
        }) + " time "@ + duration_text(m.at) + " reach "@ + quantity_text(m.reach, "m"@) + " trust "@
            + m.trust.number@ == prefixed(tv.skip(10), seps.skip(10)),
{
    let b = tv.skip(10);
    let sb = seps.skip(10);
    lemma_prefixed_split(b, sb, 4);
    lemma_prefixed_unrolled(b.take(4), sb.take(4));
    lemma_prefixed_step(b.take(4), sb.take(4), 0);
    lemma_prefixed_step(b.take(4), sb.take(4), 1);
    lemma_prefixed_step(b.take(4), sb.take(4), 2);
    lemma_prefixed_step(b.take(4), sb.take(4), 3);
    lemma_prefixed_eight(b.skip(4), sb.skip(4));
    let b1 = b.take(4);
    let s1 = sb.take(4);
    let b2 = b.skip(4);
    let s2 = sb.skip(4);
    assert(b1[0] == tv[10] && b1[1] == tv[11] && b1[2] == tv[12] && b1[3] == tv[13]);
    assert(s1[0] == seps[10] && s1[1] == seps[11] && s1[2] == seps[12] && s1[3] == seps[13]);
    assert(b2[0] == tv[14] && b2[1] == tv[15] && b2[2] == tv[16] && b2[3] == tv[17]);
    assert(b2[4] == tv[18] && b2[5] == tv[19] && b2[6] == tv[20] && b2[7] == tv[21]);
    assert(s2[0] == seps[14] && s2[1] == seps[15] && s2[2] == seps[16] && s2[3] == seps[17]);
    assert(s2[4] == seps[18] && s2[5] == seps[19] && s2[6] == seps[20] && s2[7] == seps[21]);
    reveal_strlit("");
    reveal_strlit(" ");
    reveal_strlit(")");
    reveal_strlit(") ");
    reveal_strlit(" claim ");
    reveal_strlit("claim");
    reveal_strlit(" truth ");
    reveal_strlit("truth");
    reveal_strlit(" time ");
    reveal_strlit("time");
    reveal_strlit(" reach ");
    reveal_strlit("reach");
    reveal_strlit(" trust ");
    reveal_strlit("trust");
    reveal_strlit("true");
    reveal_strlit("false");
    assert(prefixed(b1, s1) =~= ") "@ + "claim"@ + " "@ + tv[11] + " "@ + tv[12] + " "@ + tv[13]);
    assert(prefixed(b2, s2) =~= " "@ + "truth"@ + " "@ + tv[15] + " "@ + "time"@ + " "@ + tv[17] + " "@
        + "reach"@ + " "@ + tv[19] + " "@ + "trust"@ + " "@ + tv[21]);
    assert(")"@ + " claim "@ + proposition_text(m.claim) + " truth "@ + (if m.truthful {
        "true"@
    } else {
        "false"@
    }) + " time "@ + duration_text(m.at) + " reach "@ + quantity_text(m.reach, "m"@) + " trust "@
        + m.trust.number@ =~= prefixed(b1, s1) + prefixed(b2, s2));
}


#[verifier::spinoff_prover]
#[verifier::rlimit(100)]
proof fn lemma_message_text(m: MessageDecl, tv: Seq<Seq<char>>, seps: Seq<Seq<char>>)
    requires
        tv.len() == 22,
        tv[0] == "message"@,
        tv[1] == m.id@,
        tv[2] == "source"@,
        tv[3] == information_source_word(m.source),
        tv[4] == "on"@,
        tv[5] == m.surface@,
        tv[6] == "at"@,
        tv[7] == quantity_text(m.origin.x, "m"@),
        tv[8] == quantity_text(m.origin.y, "m"@),
        tv[9] == quantity_text(m.origin.z, "m"@),
        tv[10] == "claim"@,
        proposition_text(m.claim) == tv[11] + " "@ + tv[12] + " "@ + tv[13],
        tv[14] == "truth"@,
        tv[15] == if m.truthful { "true"@ } else { "false"@ },
        tv[16] == "time"@,
        tv[17] == duration_text(m.at),
        tv[18] == "reach"@,
        tv[19] == quantity_text(m.reach, "m"@),
        tv[20] == "trust"@,
        tv[21] == m.trust.number@,
        seps == seq![""@, " "@, " "@, " "@, " "@, " "@, " "@, " ("@, ", "@, ", "@, ") "@, " "@, " "@, " "@, " "@, " "@, " "@, " "@, " "@, " "@, " "@, " "@],
    ensures
        message_core_text(m) == prefixed(tv, seps) + ""@,
{
    lemma_prefixed_split(tv, seps, 10);
    let head = "message "@ + m.id@ + " source "@ + information_source_word(m.source) + " on "@ + m.surface@
        + " at "@ + "("@ + quantity_text(m.origin.x, "m"@) + ", "@ + quantity_text(m.origin.y, "m"@) + ", "@
        + quantity_text(m.origin.z, "m"@);
    let tail = ")"@ + " claim "@ + proposition_text(m.claim) + " truth "@ + (if m.truthful {
        "true"@
    } else {
        "false"@
    }) + " time "@ + duration_text(m.at) + " reach "@ + quantity_text(m.reach, "m"@) + " trust "@
        + m.trust.number@;
    assert(message_core_text(m) =~= head + tail);
    lemma_message_head_text(m, tv, seps);
    lemma_message_tail_text(m, tv, seps);
    assert(message_core_text(m) =~= prefixed(tv, seps) + ""@) by {
        reveal_strlit("");
    }
}

/// The text of a `countermeasure` line as its tokens, each after its
/// separator.
#[verifier::spinoff_prover]
#[verifier::rlimit(100)]
proof fn lemma_countermeasure_text(c: CountermeasureDecl, tv: Seq<Seq<char>>, seps: Seq<Seq<char>>)
    requires
        tv.len() == 18,
        tv[0] == "countermeasure"@,
        tv[1] == c.id@,
        tv[2] == "corrects"@,
        tv[3] == c.corrects@,
        tv[4] == "source"@,
        tv[5] == information_source_word(c.source),
        tv[6] == "on"@,
        tv[7] == c.surface@,
        tv[8] == "at"@,
        tv[9] == quantity_text(c.origin.x, "m"@),
        tv[10] == quantity_text(c.origin.y, "m"@),
        tv[11] == quantity_text(c.origin.z, "m"@),
        tv[12] == "time"@,
        tv[13] == duration_text(c.at),
        tv[14] == "reach"@,
        tv[15] == quantity_text(c.reach, "m"@),
        tv[16] == "trust"@,
        tv[17] == c.trust.number@,
        seps == seq![""@, " "@, " "@, " "@, " "@, " "@, " "@, " "@, " "@, " ("@, ", "@, ", "@, ") "@, " "@, " "@, " "@, " "@, " "@],
    ensures
        countermeasure_core_text(c) == prefixed(tv, seps) + ""@,
{
    lemma_prefixed_split(tv, seps, 10);
    lemma_prefixed_ten(tv.take(10), seps.take(10));
    lemma_prefixed_eight(tv.skip(10), seps.skip(10));
    reveal_strlit("countermeasure ");
    reveal_strlit("countermeasure");
    reveal_strlit("");
    reveal_strlit(" ");
    reveal_strlit(" corrects ");
    reveal_strlit("corrects");
    reveal_strlit(" source ");
    reveal_strlit("source");
    reveal_strlit(" on ");
    reveal_strlit("on");
    reveal_strlit(" at ");
    reveal_strlit("at");
    reveal_strlit(" (");
    reveal_strlit("(");
    reveal_strlit(", ");
    reveal_strlit(")");
    reveal_strlit(") ");
    reveal_strlit(" time ");
    reveal_strlit("time");
    reveal_strlit(" reach ");
    reveal_strlit("reach");
    reveal_strlit(" trust ");
    reveal_strlit("trust");
    assert(countermeasure_core_text(c) =~= prefixed(tv, seps) + ""@);
}

/// What the tokens of an accepted `message` line say of its declaration,
/// token by token.
proof fn lemma_message_tokens(m: MessageDecl, t: Seq<Seq<char>>)
    requires
        message_is(m, t),
        message_ok(t),
    ensures
        t[3] == information_source_word(m.source),
        t[7] == quantity_text(m.origin.x, "m"@),
        t[8] == quantity_text(m.origin.y, "m"@),
        t[9] == quantity_text(m.origin.z, "m"@),
        proposition_text(m.claim) == t[11] + " "@ + t[12] + " "@ + t[13],
        t[15] == if m.truthful { "true"@ } else { "false"@ },
        t[17] == duration_text(m.at),
        t[19] == quantity_text(m.reach, "m"@),
        t[21] == m.trust.number@,
{
    reveal_strlit("m");
    reveal_strlit("true");
    reveal_strlit("false");
    assert("m"@ == crate::syntax::meters());
    lemma_source_token(m.source, t[3]);
    lemma_unit_token(m.origin.x, t[7], "m"@);
    lemma_unit_token(m.origin.y, t[8], "m"@);
    lemma_unit_token(m.origin.z, t[9], "m"@);
    lemma_claim_tokens(m.claim, t[11], t[12], t[13]);
    lemma_duration_token(m.at, t[17]);
    lemma_unit_token(m.reach, t[19], "m"@);
}

/// The canonical line of a `message` declaration reads back as its tokens,
/// and whatever those tokens denote is written as the same line.
#[verifier::spinoff_prover]
#[verifier::rlimit(50)]
pub proof fn lemma_message_line(m: MessageDecl, tv: Seq<Seq<char>>)
    requires
        message_ok(tv),
        declaration_is(Declaration::Message(m), tv),
        canonical_tokens(tv),
    ensures
        reads_back_as(Declaration::Message(m), tv),
{
    lemma_keyword_letters();
    lemma_separators();
    let u = tv;
    let core_seps = seq![""@, " "@, " "@, " "@, " "@, " "@, " "@, " ("@, ", "@, ", "@, ") "@, " "@, " "@, " "@, " "@, " "@, " "@, " "@, " "@, " "@, " "@, " "@];
    let seps = core_seps + sample_seps(tv, 22);
    let d = Declaration::Message(m);
    lemma_message_tokens(m, tv);
    lemma_message_text(m, tv.take(22), core_seps);
    lemma_sample_tail(message_core_text(m), tv, core_seps, 22, m.sampling_key);
    assert(declaration_text(d) == prefixed(u, seps) + ""@);
    assert forall|i: int| 0 <= i < u.len() implies canonical_word(#[trigger] u[i]) by {}
    assert forall|i: int| 0 <= i < seps.len() implies inline_separator(#[trigger] seps[i]) by {}
    assert forall|i: int| 1 <= i < seps.len() implies (#[trigger] seps[i]).len() > 0 by {}
    lemma_line_tokens_of_prefixed(u, seps, ""@);
    assert(message_ok(u));
    reveal_strlit("message");
    lemma_body_accepted_message(u);
    assert forall|e: Declaration| #[trigger] declaration_is(e, u) implies declaration_text(e) == declaration_text(d)
        && section_of(e) == section_of(d) by {
        if let Declaration::Message(m2) = e {
            lemma_message_tokens(m2, u);
            lemma_message_text(m2, u.take(22), core_seps);
            lemma_sample_tail(message_core_text(m2), u, core_seps, 22, m2.sampling_key);
        }
    }
}

/// What the tokens of an accepted `countermeasure` line say of its
/// declaration, token by token.
proof fn lemma_countermeasure_tokens(c: CountermeasureDecl, t: Seq<Seq<char>>)
    requires
        countermeasure_is(c, t),
        countermeasure_ok(t),
    ensures
        t[5] == information_source_word(c.source),
        t[9] == quantity_text(c.origin.x, "m"@),
        t[10] == quantity_text(c.origin.y, "m"@),
        t[11] == quantity_text(c.origin.z, "m"@),
        t[13] == duration_text(c.at),
        t[15] == quantity_text(c.reach, "m"@),
        t[17] == c.trust.number@,
{
    reveal_strlit("m");
    assert("m"@ == crate::syntax::meters());
    lemma_source_token(c.source, t[5]);
    lemma_unit_token(c.origin.x, t[9], "m"@);
    lemma_unit_token(c.origin.y, t[10], "m"@);
    lemma_unit_token(c.origin.z, t[11], "m"@);
    lemma_duration_token(c.at, t[13]);
    lemma_unit_token(c.reach, t[15], "m"@);
}

/// The canonical line of a `countermeasure` declaration reads back as its
/// tokens, and whatever those tokens denote is written as the same line.
#[verifier::spinoff_prover]
#[verifier::rlimit(50)]
pub proof fn lemma_countermeasure_line(c: CountermeasureDecl, tv: Seq<Seq<char>>)
    requires
        countermeasure_ok(tv),
        declaration_is(Declaration::Countermeasure(c), tv),
        canonical_tokens(tv),
    ensures
        reads_back_as(Declaration::Countermeasure(c), tv),
{
    lemma_keyword_letters();
    lemma_separators();
    let u = tv;
    let core_seps = seq![""@, " "@, " "@, " "@, " "@, " "@, " "@, " "@, " "@, " ("@, ", "@, ", "@, ") "@, " "@, " "@, " "@, " "@, " "@];
    let seps = core_seps + sample_seps(tv, 18);
    let d = Declaration::Countermeasure(c);
    lemma_countermeasure_tokens(c, tv);
    lemma_countermeasure_text(c, tv.take(18), core_seps);
    lemma_sample_tail(countermeasure_core_text(c), tv, core_seps, 18, c.sampling_key);
    assert(declaration_text(d) == prefixed(u, seps) + ""@);
    assert forall|i: int| 0 <= i < u.len() implies canonical_word(#[trigger] u[i]) by {}
    assert forall|i: int| 0 <= i < seps.len() implies inline_separator(#[trigger] seps[i]) by {}
    assert forall|i: int| 1 <= i < seps.len() implies (#[trigger] seps[i]).len() > 0 by {}
    lemma_line_tokens_of_prefixed(u, seps, ""@);
    assert(countermeasure_ok(u));
    lemma_body_accepted_countermeasure(u);
    assert forall|e: Declaration| #[trigger] declaration_is(e, u) implies declaration_text(e) == declaration_text(d)
        && section_of(e) == section_of(d) by {
        if let Declaration::Countermeasure(c2) = e {
            lemma_countermeasure_tokens(c2, u);
            lemma_countermeasure_text(c2, u.take(18), core_seps);
            lemma_sample_tail(countermeasure_core_text(c2), u, core_seps, 18, c2.sampling_key);
        }
    }
}

/// The separators of an optional final `sample KEY` clause after `n` tokens.
pub open spec fn sample_seps(tv: Seq<Seq<char>>, n: int) -> Seq<Seq<char>> {
    if tv.len() == n + 2 {
        seq![" "@, " "@]
    } else {
        Seq::empty()
    }
}

/// A line's text followed by its optional sampling key is its tokens, each
/// after its separator.
proof fn lemma_sample_tail(core: Seq<char>, tv: Seq<Seq<char>>, seps: Seq<Seq<char>>, n: int, key: Option<String>)
    requires
        0 <= n <= tv.len(),
        seps.len() == n,
        core == prefixed(tv.take(n), seps) + ""@,
        sampling_key(tv, n) matches Some(o) && string_option_is(key, o, tv),
    ensures
        core + sample_text(key) == prefixed(tv, seps + sample_seps(tv, n)) + ""@,
        tv.len() == (seps + sample_seps(tv, n)).len(),
{
    reveal_strlit("");
    if tv.len() == n {
        assert(tv.take(n) =~= tv);
        assert(seps + sample_seps(tv, n) =~= seps);
        assert(core + sample_text(key) =~= core);
    } else {
        let pair = seq![tv[n], tv[n + 1]];
        let two = seq![" "@, " "@];
        assert(tv =~= tv.take(n) + pair);
        lemma_prefixed_concat(tv.take(n), seps, pair, two);
        reveal_with_fuel(prefixed, 3);
        assert(prefixed(pair, two) =~= " "@ + tv[n] + " "@ + tv[n + 1]);
        reveal_strlit(" sample ");
        reveal_strlit("sample");
        reveal_strlit(" ");
        assert(tv[n] == "sample"@);
        assert(sample_text(key) =~= " "@ + tv[n] + " "@ + tv[n + 1]);
        assert(core + sample_text(key) =~= prefixed(tv, seps + sample_seps(tv, n)) + ""@);
    }
}

/// A message line is accepted by the message rule, whatever the header held.
pub(crate) proof fn lemma_body_accepted_message(tv: Seq<Seq<char>>)
    requires
        tv.len() > 0,
        tv[0] == "message"@,
        message_ok(tv),
    ensures
        declaration_accepted(tv, true, true, true, true),
{
    lemma_keyword_letters();
}

proof fn lemma_body_accepted_countermeasure(tv: Seq<Seq<char>>)
    requires
        tv.len() > 0,
        tv[0] == "countermeasure"@,
        countermeasure_ok(tv),
    ensures
        declaration_accepted(tv, true, true, true, true),
{
    lemma_keyword_letters();
}

} // verus!
