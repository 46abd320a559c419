//! The canonical line of an agent group read back: its clauses are written
//! in a fixed order, each as a keyword and a value.

use vstd::prelude::*;
use crate::canonical::{inline_separator, lemma_line_tokens_of_prefixed, lemma_separators, reads_back_as, lemma_decimal_reads_back, lemma_decimal_word, lemma_keyword_letters, canonical_tokens, canonical_word, lemma_duration_token, lemma_unit_token, lemma_zero_seconds, 
    lemma_prefixed_eight, lemma_prefixed_split, lemma_prefixed_step, lemma_prefixed_ten,
    lemma_prefixed_unrolled,
};
use crate::formatter::{declaration_text, section_of, agents_text, agent_speed_text, release_text, clauses_text, duration_text, kind_words, quantity_text};
use crate::lexer::{lemma_prefixed_concat, prefixed, string_views};
use crate::model::{connector_kind_word, ConnectorKind};
use crate::syntax::{declaration_is, Declaration, declaration_accepted, agents_is, agents_ok, agent_options, duration_ok, kinds_in_order, u32_ok, agent_options_from, connector_kind_of, speed_shift, AgentOptionIndices, AgentSpeed, AgentsDecl};
use crate::text::{decimal, only_if};

verus! {

/// `WORD ITEM` for each item, in order.
pub open spec fn clause_tokens(items: Seq<Seq<char>>, word: Seq<char>) -> Seq<Seq<char>>
    decreases items.len(),
{
    if items.len() == 0 {
        Seq::empty()
    } else {
        clause_tokens(items.drop_last(), word) + seq![word, items.last()]
    }
}

/// `n` single blanks.
pub open spec fn blanks(n: nat) -> Seq<Seq<char>> {
    Seq::new(n, |i: int| " "@)
}

/// Each clause is two tokens.
pub proof fn lemma_clause_tokens_len(items: Seq<Seq<char>>, word: Seq<char>)
    ensures
        clause_tokens(items, word).len() == 2 * items.len(),
    decreases items.len(),
{
    if items.len() > 0 {
        lemma_clause_tokens_len(items.drop_last(), word);
    }
}

/// Clauses `WORD ITEM` read as their words, each after a blank.
pub proof fn lemma_clauses_text(items: Seq<Seq<char>>, word: Seq<char>)
    ensures
        clauses_text(items, " "@ + word + " "@) == prefixed(clause_tokens(items, word), blanks(2 * items.len())),
    decreases items.len(),
{
    lemma_clause_tokens_len(items, word);
    if items.len() == 0 {
        assert(prefixed(clause_tokens(items, word), blanks(0)) =~= Seq::<char>::empty());
    } else {
        let init = items.drop_last();
        lemma_clauses_text(init, word);
        lemma_clause_tokens_len(init, word);
        let pair = seq![word, items.last()];
        let two = seq![" "@, " "@];
        lemma_prefixed_concat(clause_tokens(init, word), blanks(2 * init.len()), pair, two);
        assert(blanks(2 * init.len()) + two =~= blanks(2 * items.len()));
        lemma_prefixed_unrolled(pair, two);
        lemma_prefixed_step(pair, two, 0);
        lemma_prefixed_step(pair, two, 1);
        assert(prefixed(pair, two) =~= " "@ + word + " "@ + items.last());
        assert(clauses_text(items, " "@ + word + " "@) =~= clauses_text(init, " "@ + word + " "@) + (" "@ + word
            + " "@ + items.last()));
    }
}

/// A speed token is not the word `profile`.
proof fn lemma_speed_token_not_profile(q: crate::syntax::Quantity)
    ensures
        quantity_text(q, "m/s"@) != "profile"@,
{
    reveal_strlit("m/s");
    reveal_strlit("profile");
    let t = quantity_text(q, "m/s"@);
    assert(t[t.len() - 1] == 's');
}

/// The canonical tokens of an agent group move their clauses one token on
/// exactly when its speed comes from a walking profile.
proof fn lemma_head_shift(a: AgentsDecl)
    ensures
        speed_shift(agents_tokens(a)) == head_len(a) - 18,
        agents_tokens(a).len() > 13,
        agents_tokens(a)[11] == a.destination@,
{
    let u = agents_tokens(a);
    assert(u[11] == agents_head(a)[11]);
    assert(u[13] == agents_head(a)[13]);
    match a.speed {
        AgentSpeed::Given(q) => {
            lemma_speed_token_not_profile(q);
        },
        AgentSpeed::Profile(n) => {},
    }
}

/// The release time an agent group's line writes: its release, or zero.
pub open spec fn release_token(a: AgentsDecl) -> Seq<char> {
    match a.release_at {
        Some(q) => duration_text(q),
        None => "0s"@,
    }
}

/// The cadence of an agent group's release, as its line writes it: `every
/// INTERVAL`, then `batch SIZE`, where it has them.
pub open spec fn cadence_tokens(a: AgentsDecl) -> Seq<Seq<char>> {
    match a.release_interval {
        Some(q) => seq!["every"@, duration_text(q)] + match a.release_batch_size {
            Some(b) => seq!["batch"@, decimal(b as nat)],
            None => Seq::<Seq<char>>::empty(),
        },
        None => Seq::empty(),
    }
}

/// The release interval of an agent group is written as a duration token.
pub open spec fn cadence_ok(a: AgentsDecl) -> bool {
    a.release_interval matches Some(q) ==> duration_ok(duration_text(q))
}

/// Where the release interval of an agent group's canonical line stands.
pub open spec fn interval_index(a: AgentsDecl) -> Option<int> {
    if a.release_interval is Some {
        Some(release_start(a) + 3)
    } else {
        None
    }
}

/// Where the release batch size of an agent group's canonical line stands.
pub open spec fn batch_index(a: AgentsDecl) -> Option<int> {
    if a.release_interval is Some && a.release_batch_size is Some {
        Some(release_start(a) + 5)
    } else {
        None
    }
}

/// The release clause of an agent group's line, as tokens.
pub open spec fn release_tokens(a: AgentsDecl) -> Seq<Seq<char>> {
    seq!["release"@, release_token(a)] + cadence_tokens(a)
}

/// The release clause is its tokens, each after a blank.
#[verifier::spinoff_prover]
#[verifier::rlimit(50)]
proof fn lemma_release_text(a: AgentsDecl)
    ensures
        release_text(a) == prefixed(release_tokens(a), blanks(release_tokens(a).len())),
        release_tokens(a).len() == 2 || release_tokens(a).len() == 4 || release_tokens(a).len() == 6,
{
    reveal_with_fuel(prefixed, 7);
    reveal_strlit(" release ");
    reveal_strlit("release");
    reveal_strlit(" every ");
    reveal_strlit("every");
    reveal_strlit(" batch ");
    reveal_strlit("batch");
    reveal_strlit(" ");
    let t = release_tokens(a);
    let b = blanks(t.len());
    assert(release_text(a) =~= prefixed(t, b));
}

/// The speed clause value of an agent group, as tokens: its speed, or
/// `profile NAME`.
pub open spec fn speed_words(speed: AgentSpeed) -> Seq<Seq<char>> {
    match speed {
        AgentSpeed::Given(q) => seq![quantity_text(q, "m/s"@)],
        AgentSpeed::Profile(n) => seq!["profile"@, n@],
    }
}

/// The number of head tokens of an agent group's canonical line.
pub open spec fn head_len(a: AgentsDecl) -> int {
    17 + speed_words(a.speed).len() as int
}

/// The head tokens before the speed.
pub open spec fn head_start(a: AgentsDecl) -> Seq<Seq<char>> {
    seq![
        "agents"@,
        a.id@,
        "count"@,
        decimal(a.count as nat),
        "on"@,
        a.surface@,
        "at"@,
        quantity_text(a.at.x, "m"@),
        quantity_text(a.at.y, "m"@),
        quantity_text(a.at.z, "m"@),
        "to"@,
        a.destination@,
        "speed"@,
    ]
}

/// The head tokens after the speed.
pub open spec fn head_end(a: AgentsDecl) -> Seq<Seq<char>> {
    seq!["radius"@, quantity_text(a.radius, "m"@), "height"@, quantity_text(a.height, "m"@)]
}

/// The first tokens of an agent group's canonical line.
pub open spec fn agents_head(a: AgentsDecl) -> Seq<Seq<char>> {
    head_start(a) + speed_words(a.speed) + head_end(a)
}

/// The separators before the head tokens before the speed.
pub open spec fn start_seps() -> Seq<Seq<char>> {
    seq![""@, " "@, " "@, " "@, " "@, " "@, " "@, " ("@, ", "@, ", "@, ") "@, " "@, " "@]
}

/// The separators before the first tokens of an agent group's line.
pub open spec fn head_seps(a: AgentsDecl) -> Seq<Seq<char>> {
    start_seps() + blanks(speed_words(a.speed).len()) + blanks(4)
}

/// The canonical tokens of an agent group: the head, its waypoints, its
/// alternative exits, its excluded kinds, and its release time.
pub open spec fn agents_tokens(a: AgentsDecl) -> Seq<Seq<char>> {
    agents_head(a) + clause_tokens(string_views(a.via@), "via"@) + clause_tokens(
        string_views(a.alternative_destinations@),
        "alternative"@,
    ) + clause_tokens(kind_words(a.excluded_connector_kinds@), "exclude"@) + release_tokens(a)
}

/// The separators before the canonical tokens of an agent group.
pub open spec fn agents_seps(a: AgentsDecl) -> Seq<Seq<char>> {
    head_seps(a) + blanks(
        (2 * a.via@.len() + 2 * a.alternative_destinations@.len() + 2 * a.excluded_connector_kinds@.len()
            + release_tokens(a).len()) as nat,
    )
}

/// The head tokens before the speed, each after its separator.
#[verifier::spinoff_prover]
#[verifier::rlimit(80)]
proof fn lemma_head_start_text(a: AgentsDecl)
    ensures
        prefixed(head_start(a), start_seps()) == "agents "@ + a.id@ + " count "@ + decimal(a.count as nat) + " on "@
            + a.surface@ + " at "@ + crate::formatter::point_text(a.at) + " to "@ + a.destination@ + " "@ + "speed"@,
        head_start(a).len() == start_seps().len(),
{
    let h1 = head_start(a);
    let s1 = start_seps();
    lemma_prefixed_split(h1, s1, 10);
    lemma_prefixed_ten(h1.take(10), s1.take(10));
    let hs = h1.skip(10);
    let ss = s1.skip(10);
    reveal_with_fuel(prefixed, 4);
    reveal_strlit("agents ");
    reveal_strlit("agents");
    reveal_strlit("");
    reveal_strlit(" ");
    reveal_strlit(" count ");
    reveal_strlit("count");
    reveal_strlit(" on ");
    reveal_strlit("on");
    reveal_strlit(" at ");
    reveal_strlit("at");
    reveal_strlit(" (");
    reveal_strlit("(");
    reveal_strlit(", ");
    reveal_strlit(")");
    reveal_strlit(") ");
    reveal_strlit(" to ");
    reveal_strlit("to");
    reveal_strlit("speed");
    assert(prefixed(hs, ss) =~= ") "@ + "to"@ + " "@ + a.destination@ + " "@ + "speed"@);
    assert(prefixed(h1, s1) =~= "agents "@ + a.id@ + " count "@ + decimal(a.count as nat) + " on "@ + a.surface@
        + " at "@ + crate::formatter::point_text(a.at) + " to "@ + a.destination@ + " "@ + "speed"@);
}

/// The speed tokens, each after a blank.
proof fn lemma_speed_words_text(a: AgentsDecl)
    ensures
        prefixed(speed_words(a.speed), blanks(speed_words(a.speed).len())) == " "@ + agent_speed_text(a.speed),
{
    reveal_with_fuel(prefixed, 3);
    reveal_strlit(" ");
    reveal_strlit("profile ");
    reveal_strlit("profile");
    assert(prefixed(speed_words(a.speed), blanks(speed_words(a.speed).len())) =~= " "@ + agent_speed_text(a.speed));
}

/// The head tokens after the speed, each after a blank.
proof fn lemma_head_end_text(a: AgentsDecl)
    ensures
        prefixed(head_end(a), blanks(4)) == " radius "@ + quantity_text(a.radius, "m"@) + " height "@ + quantity_text(
            a.height,
            "m"@,
        ),
{
    reveal_with_fuel(prefixed, 5);
    reveal_strlit(" ");
    reveal_strlit(" radius ");
    reveal_strlit("radius");
    reveal_strlit(" height ");
    reveal_strlit("height");
    assert(prefixed(head_end(a), blanks(4)) =~= " radius "@ + quantity_text(a.radius, "m"@) + " height "@
        + quantity_text(a.height, "m"@));
}

#[verifier::spinoff_prover]
#[verifier::rlimit(100)]
proof fn lemma_agents_head_text(a: AgentsDecl)
    ensures
        "agents "@ + a.id@ + " count "@ + decimal(a.count as nat) + " on "@ + a.surface@ + " at "@
            + crate::formatter::point_text(a.at) + " to "@ + a.destination@ + " speed "@ + agent_speed_text(a.speed)
            + " radius "@ + quantity_text(a.radius, "m"@) + " height "@ + quantity_text(a.height, "m"@)
            == prefixed(agents_head(a), head_seps(a)),
        agents_head(a).len() == head_seps(a).len(),
        agents_head(a).len() == head_len(a),
{
    let h1 = head_start(a);
    let s1 = start_seps();
    let sw = speed_words(a.speed);
    let bw = blanks(sw.len());
    let h3 = head_end(a);
    let b4 = blanks(4);
    lemma_head_start_text(a);
    lemma_speed_words_text(a);
    lemma_head_end_text(a);
    lemma_prefixed_concat(h1, s1, sw, bw);
    lemma_prefixed_concat(h1 + sw, s1 + bw, h3, b4);
    assert(agents_head(a) == h1 + sw + h3);
    assert(head_seps(a) == s1 + bw + b4);
    reveal_strlit(" speed ");
    reveal_strlit("speed");
    reveal_strlit(" ");
    reveal_strlit(" radius ");
    reveal_strlit("radius");
    reveal_strlit(" height ");
    reveal_strlit("height");
    assert("agents "@ + a.id@ + " count "@ + decimal(a.count as nat) + " on "@ + a.surface@ + " at "@
        + crate::formatter::point_text(a.at) + " to "@ + a.destination@ + " speed "@ + agent_speed_text(a.speed)
        + " radius "@ + quantity_text(a.radius, "m"@) + " height "@ + quantity_text(a.height, "m"@)
        =~= prefixed(agents_head(a), head_seps(a)));
}

/// An agent group's canonical line is its canonical tokens, each after its
/// separator.
#[verifier::spinoff_prover]
#[verifier::rlimit(50)]
pub proof fn lemma_agents_text(a: AgentsDecl)
    requires
    ensures
        agents_text(a) == prefixed(agents_tokens(a), agents_seps(a)) + ""@,
        agents_tokens(a).len() == agents_seps(a).len(),
{
    let via = string_views(a.via@);
    let alt = string_views(a.alternative_destinations@);
    let ex = kind_words(a.excluded_connector_kinds@);
    let h = agents_head(a);
    let hs = head_seps(a);
    let cv = clause_tokens(via, "via"@);
    let ca = clause_tokens(alt, "alternative"@);
    let ce = clause_tokens(ex, "exclude"@);
    let rel = release_tokens(a);
    let two = blanks(rel.len());
    lemma_agents_head_text(a);
    lemma_release_text(a);
    assert(" via "@ == " "@ + "via"@ + " "@ && " alternative "@ == " "@ + "alternative"@ + " "@ && " exclude "@
        == " "@ + "exclude"@ + " "@ && " release "@ == " "@ + "release"@ + " "@) by {
        reveal_strlit(" via ");
        reveal_strlit("via");
        reveal_strlit(" alternative ");
        reveal_strlit("alternative");
        reveal_strlit(" exclude ");
        reveal_strlit("exclude");
        reveal_strlit(" release ");
        reveal_strlit("release");
        reveal_strlit(" ");
    }
    lemma_clauses_text(via, "via"@);
    lemma_clauses_text(alt, "alternative"@);
    lemma_clauses_text(ex, "exclude"@);
    lemma_clause_tokens_len(via, "via"@);
    lemma_clause_tokens_len(alt, "alternative"@);
    lemma_clause_tokens_len(ex, "exclude"@);
    let bv = blanks(2 * via.len());
    let ba = blanks(2 * alt.len());
    let be = blanks(2 * ex.len());
    lemma_prefixed_concat(h, hs, cv, bv);
    lemma_prefixed_concat(h + cv, hs + bv, ca, ba);
    lemma_prefixed_concat(h + cv + ca, hs + bv + ba, ce, be);
    lemma_prefixed_concat(h + cv + ca + ce, hs + bv + ba + be, rel, two);
    assert(hs + bv + ba + be + two =~= agents_seps(a));
    assert(agents_text(a) =~= prefixed(agents_tokens(a), agents_seps(a)) + ""@) by {
        reveal_strlit("");
    }
}

/// The clause keywords of an agent group tell themselves apart.
proof fn lemma_clause_words()
    ensures
        "via"@ != "release"@,
        "alternative"@ != "release"@,
        "exclude"@ != "release"@,
        "alternative"@ != "via"@,
        "exclude"@ != "via"@,
        "exclude"@ != "alternative"@,
{
    reveal_strlit("via");
    reveal_strlit("release");
    reveal_strlit("alternative");
    reveal_strlit("exclude");
    assert("via"@.len() != "release"@.len());
    assert("alternative"@.len() != "release"@.len());
    assert("exclude"@[0] != "release"@[0]);
    assert("alternative"@.len() != "via"@.len());
    assert("exclude"@.len() != "via"@.len());
    assert("exclude"@.len() != "alternative"@.len());
}

/// The positions of the values of `n` clauses from `start`.
pub open spec fn value_positions(start: int, n: nat) -> Seq<int> {
    Seq::new(n, |i: int| start + 2 * i + 1)
}

/// A run of `via` clauses adds the positions of its values.
proof fn lemma_via_run(u: Seq<Seq<char>>, primary: Seq<char>, start: int, st: AgentOptionIndices, items: Seq<Seq<char>>, k: nat)
    requires
        0 <= start,
        k <= items.len(),
        start + 2 * items.len() <= u.len(),
        forall|i: int| 0 <= i < items.len() ==> #[trigger] u[start + 2 * i] == "via"@ && u[start + 2 * i + 1] == items[i],
    ensures
        agent_options_from(u, primary, start + 2 * k, st) == agent_options_from(
            u,
            primary,
            start + 2 * items.len(),
            (st.0, st.1, st.2, st.3 + value_positions(start + 2 * k, (items.len() - k) as nat), st.4, st.5),
        ),
    decreases items.len() - k,
{
    if k == items.len() {
        assert(st.3 + value_positions(start + 2 * k, 0) =~= st.3);
    } else {
        lemma_clause_words();
        let idx = start + 2 * k;
        assert(u[start + 2 * k] == "via"@);
        let next = (st.0, st.1, st.2, st.3.push(idx + 1), st.4, st.5);
        assert(agent_options_from(u, primary, idx, st) == agent_options_from(u, primary, idx + 2, next));
        lemma_via_run(u, primary, start, next, items, (k + 1) as nat);
        assert(next.3 + value_positions(start + 2 * (k + 1), (items.len() - k - 1) as nat) =~= st.3 + value_positions(
            start + 2 * k,
            (items.len() - k) as nat,
        ));
    }
}

/// A run of distinct `alternative` clauses, none naming the primary exit,
/// adds the positions of its values.
proof fn lemma_alternative_run(
    u: Seq<Seq<char>>,
    primary: Seq<char>,
    start: int,
    st: AgentOptionIndices,
    items: Seq<Seq<char>>,
    k: nat,
)
    requires
        0 <= start,
        k <= items.len(),
        start + 2 * items.len() <= u.len(),
        forall|i: int| 0 <= i < items.len() ==> #[trigger] u[start + 2 * i] == "alternative"@ && u[start + 2 * i + 1] == items[i],
        forall|i: int, j: int| 0 <= i < items.len() && 0 <= j < items.len() && i != j ==> items[i] != items[j],
        forall|i: int| 0 <= i < items.len() ==> #[trigger] items[i] != primary,
        st.4 == value_positions(start, k),
    ensures
        agent_options_from(u, primary, start + 2 * k, st) == agent_options_from(
            u,
            primary,
            start + 2 * items.len(),
            (st.0, st.1, st.2, st.3, value_positions(start, items.len()), st.5),
        ),
    decreases items.len() - k,
{
    if k == items.len() {
        assert(st == (st.0, st.1, st.2, st.3, value_positions(start, items.len()), st.5));
    } else {
        lemma_clause_words();
        let idx = start + 2 * k;
        assert(u[start + 2 * k] == "alternative"@);
        assert(u[idx + 1] == items[k as int]);
        assert(!exists|j: int| 0 <= j < st.4.len() && 0 <= st.4[j] < u.len() && #[trigger] u[st.4[j]] == u[idx + 1]) by {
            if exists|j: int| 0 <= j < st.4.len() && 0 <= st.4[j] < u.len() && #[trigger] u[st.4[j]] == u[idx + 1] {
                let j = choose|j: int| 0 <= j < st.4.len() && 0 <= st.4[j] < u.len() && #[trigger] u[st.4[j]] == u[idx + 1];
                assert(st.4[j] == start + 2 * j + 1);
                assert(j < k);
                assert(u[start + 2 * j] == "alternative"@);
                assert(u[start + 2 * j + 1] == items[j]);
            }
        }
        let next = (st.0, st.1, st.2, st.3, st.4.push(idx + 1), st.5);
        assert(agent_options_from(u, primary, idx, st) == agent_options_from(u, primary, idx + 2, next));
        assert(next.4 =~= value_positions(start, (k + 1) as nat));
        lemma_alternative_run(u, primary, start, next, items, (k + 1) as nat);
    }
}

proof fn lemma_kind_word_reads_back(k: ConnectorKind)
    ensures
        connector_kind_of(connector_kind_word(k)) == Some(k),
{
    reveal_strlit("stair");
    reveal_strlit("ramp");
    reveal_strlit("escalator");
    reveal_strlit("lift");
    assert("stair"@.len() == 5 && "ramp"@.len() == 4 && "escalator"@.len() == 9 && "lift"@.len() == 4);
    assert("ramp"@[0] != "lift"@[0]);
}

/// A run of `exclude` clauses of distinct kinds adds those kinds.
proof fn lemma_exclude_run(
    u: Seq<Seq<char>>,
    primary: Seq<char>,
    start: int,
    st: AgentOptionIndices,
    kinds: Seq<ConnectorKind>,
    k: nat,
)
    requires
        0 <= start,
        k <= kinds.len(),
        start + 2 * kinds.len() <= u.len(),
        forall|i: int| 0 <= i < kinds.len() ==> #[trigger] u[start + 2 * i] == "exclude"@ && u[start + 2 * i + 1]
            == connector_kind_word(kinds[i]),
        forall|i: int, j: int| 0 <= i < kinds.len() && 0 <= j < kinds.len() && i != j ==> kinds[i] != kinds[j],
        st.5 == kinds.take(k as int),
    ensures
        agent_options_from(u, primary, start + 2 * k, st) == agent_options_from(
            u,
            primary,
            start + 2 * kinds.len(),
            (st.0, st.1, st.2, st.3, st.4, kinds),
        ),
    decreases kinds.len() - k,
{
    if k == kinds.len() {
        assert(kinds.take(k as int) =~= kinds);
    } else {
        lemma_clause_words();
        let idx = start + 2 * k;
        assert(u[start + 2 * k] == "exclude"@);
        lemma_kind_word_reads_back(kinds[k as int]);
        assert(!st.5.contains(kinds[k as int])) by {
            if st.5.contains(kinds[k as int]) {
                let j = choose|j: int| 0 <= j < st.5.len() && st.5[j] == kinds[k as int];
                assert(st.5[j] == kinds[j]);
            }
        }
        let next = (st.0, st.1, st.2, st.3, st.4, st.5.push(kinds[k as int]));
        assert(agent_options_from(u, primary, idx, st) == agent_options_from(u, primary, idx + 2, next));
        assert(next.5 =~= kinds.take(k + 1int));
        lemma_exclude_run(u, primary, start, next, kinds, (k + 1) as nat);
    }
}

/// The keyword and the value of each clause, place by place.
pub proof fn lemma_clause_tokens_index(items: Seq<Seq<char>>, word: Seq<char>)
    ensures
        clause_tokens(items, word).len() == 2 * items.len(),
        forall|i: int| 0 <= i < items.len() ==> #[trigger] clause_tokens(items, word)[2 * i] == word,
        forall|i: int| 0 <= i < items.len() ==> #[trigger] clause_tokens(items, word)[2 * i + 1] == items[i],
    decreases items.len(),
{
    lemma_clause_tokens_len(items, word);
    if items.len() > 0 {
        let init = items.drop_last();
        lemma_clause_tokens_index(init, word);
        let pair = seq![word, items.last()];
        assert(clause_tokens(items, word) == clause_tokens(init, word) + pair);
        assert forall|i: int| 0 <= i < items.len() implies #[trigger] clause_tokens(items, word)[2 * i] == word by {
            if i < init.len() {
                assert(clause_tokens(init, word)[2 * i] == word);
            } else {
                assert(clause_tokens(items, word)[2 * i] == pair[0]);
            }
        }
        assert forall|i: int| 0 <= i < items.len() implies #[trigger] clause_tokens(items, word)[2 * i + 1] == items[i] by {
            if i < init.len() {
                assert(clause_tokens(init, word)[2 * i + 1] == init[i]);
            } else {
                assert(clause_tokens(items, word)[2 * i + 1] == pair[1]);
            }
        }
    }
}

/// Where the clauses of an agent group's canonical line start.
pub open spec fn alternatives_start(a: AgentsDecl) -> int {
    head_len(a) + 2 * a.via@.len() as int
}

/// Where the excluded kinds of an agent group's canonical line start.
pub open spec fn exclusions_start(a: AgentsDecl) -> int {
    alternatives_start(a) + 2 * a.alternative_destinations@.len()
}

/// Where the release clause of an agent group's canonical line starts.
pub open spec fn release_start(a: AgentsDecl) -> int {
    exclusions_start(a) + 2 * a.excluded_connector_kinds@.len()
}

/// The tokens of an agent group's canonical line, place by place.
#[verifier::spinoff_prover]
#[verifier::rlimit(80)]
proof fn lemma_agents_tokens_index(a: AgentsDecl)
    ensures
        agents_tokens(a).len() == release_start(a) + release_tokens(a).len(),
        forall|i: int| 0 <= i < release_tokens(a).len() ==> #[trigger] agents_tokens(a)[release_start(a) + i]
            == release_tokens(a)[i],
        forall|i: int| 0 <= i < head_len(a) ==> #[trigger] agents_tokens(a)[i] == agents_head(a)[i],
        forall|i: int| 0 <= i < a.via@.len() ==> #[trigger] agents_tokens(a)[head_len(a) + 2 * i] == "via"@
            && agents_tokens(a)[head_len(a) + 2 * i + 1] == a.via@[i]@,
        forall|i: int| 0 <= i < a.alternative_destinations@.len() ==> #[trigger] agents_tokens(a)[alternatives_start(a) + 2 * i]
            == "alternative"@ && agents_tokens(a)[alternatives_start(a) + 2 * i + 1] == a.alternative_destinations@[i]@,
        forall|i: int| 0 <= i < a.excluded_connector_kinds@.len() ==> #[trigger] agents_tokens(a)[exclusions_start(a) + 2 * i]
            == "exclude"@ && agents_tokens(a)[exclusions_start(a) + 2 * i + 1] == connector_kind_word(a.excluded_connector_kinds@[i]),
        agents_tokens(a)[release_start(a)] == "release"@,
        agents_tokens(a)[release_start(a) + 1] == release_token(a),
{
    let via = string_views(a.via@);
    let alt = string_views(a.alternative_destinations@);
    let ex = kind_words(a.excluded_connector_kinds@);
    let h = agents_head(a);
    let cv = clause_tokens(via, "via"@);
    let ca = clause_tokens(alt, "alternative"@);
    let ce = clause_tokens(ex, "exclude"@);
    let rel = release_tokens(a);
    lemma_clause_tokens_index(via, "via"@);
    lemma_clause_tokens_index(alt, "alternative"@);
    lemma_clause_tokens_index(ex, "exclude"@);
    let u = agents_tokens(a);
    assert(u == h + cv + ca + ce + rel);
    assert(h.len() == head_len(a));
    assert forall|i: int| 0 <= i < a.via@.len() implies #[trigger] u[head_len(a) + 2 * i] == "via"@ && u[head_len(a) + 2 * i + 1] == a.via@[i]@ by {
        assert(cv[2 * i] == "via"@);
        assert(cv[2 * i + 1] == via[i]);
        assert(via[i] == a.via@[i]@);
        assert(u[head_len(a) + 2 * i] == cv[2 * i]);
        assert(u[head_len(a) + 2 * i + 1] == cv[2 * i + 1]);
    }
    assert forall|i: int| 0 <= i < a.alternative_destinations@.len() implies #[trigger] u[alternatives_start(a) + 2 * i]
        == "alternative"@ && u[alternatives_start(a) + 2 * i + 1] == a.alternative_destinations@[i]@ by {
        assert(ca[2 * i] == "alternative"@);
        assert(ca[2 * i + 1] == alt[i]);
        assert(alt[i] == a.alternative_destinations@[i]@);
        assert(u[alternatives_start(a) + 2 * i] == ca[2 * i]);
        assert(u[alternatives_start(a) + 2 * i + 1] == ca[2 * i + 1]);
    }
    assert forall|i: int| 0 <= i < a.excluded_connector_kinds@.len() implies #[trigger] u[exclusions_start(a) + 2 * i]
        == "exclude"@ && u[exclusions_start(a) + 2 * i + 1] == connector_kind_word(a.excluded_connector_kinds@[i]) by {
        assert(ex.len() == a.excluded_connector_kinds@.len());
        assert(ce[2 * i] == "exclude"@);
        assert(ce[2 * i + 1] == ex[i]);
        assert(ex[i] == connector_kind_word(a.excluded_connector_kinds@[i]));
        assert(u[exclusions_start(a) + 2 * i] == ce[2 * i]);
        assert(u[exclusions_start(a) + 2 * i + 1] == ce[2 * i + 1]);
    }
}

/// What the clauses of an agent group's canonical line read back as.
#[verifier::spinoff_prover]
#[verifier::rlimit(60)]
pub proof fn lemma_agents_options(a: AgentsDecl)
    requires
        forall|i: int, j: int|
            0 <= i < a.alternative_destinations@.len() && 0 <= j < a.alternative_destinations@.len() && i != j
                ==> a.alternative_destinations@[i]@ != a.alternative_destinations@[j]@,
        forall|i: int| 0 <= i < a.alternative_destinations@.len() ==> (#[trigger] a.alternative_destinations@[i])@ != a.destination@,
        forall|i: int, j: int|
            0 <= i < a.excluded_connector_kinds@.len() && 0 <= j < a.excluded_connector_kinds@.len() && i != j
                ==> a.excluded_connector_kinds@[i] != a.excluded_connector_kinds@[j],
        duration_ok(release_token(a)),
        cadence_ok(a),
    ensures
        agent_options(agents_tokens(a)) == Some((
            Some(release_start(a) + 1),
            interval_index(a),
            batch_index(a),
            value_positions(head_len(a), a.via@.len()),
            value_positions(alternatives_start(a), a.alternative_destinations@.len()),
            a.excluded_connector_kinds@,
        )),
{
    let u = agents_tokens(a);
    let p = u[11];
    lemma_agents_tokens_index(a);
    lemma_head_shift(a);
    lemma_clause_words();
    assert(p == a.destination@);
    let via = string_views(a.via@);
    let alt = string_views(a.alternative_destinations@);
    let kinds = a.excluded_connector_kinds@;
    let st0: AgentOptionIndices = (None, None, None, Seq::empty(), Seq::empty(), Seq::empty());
    let hl = head_len(a);
    assert forall|i: int| 0 <= i < via.len() implies #[trigger] u[hl + 2 * i] == "via"@ && u[hl + 2 * i + 1] == via[i] by {
        assert(u[hl + 2 * i] == "via"@);
    }
    lemma_via_run(u, p, hl, st0, via, 0);
    let st1: AgentOptionIndices = (None, None, None, value_positions(hl, via.len()), Seq::empty(), Seq::empty());
    assert(st0.3 + value_positions(hl, via.len()) =~= st1.3);
    let s1 = alternatives_start(a);
    assert forall|i: int| 0 <= i < alt.len() implies #[trigger] u[s1 + 2 * i] == "alternative"@ && u[s1 + 2 * i + 1] == alt[i] by {
        assert(u[alternatives_start(a) + 2 * i] == "alternative"@);
    }
    assert forall|i: int| 0 <= i < alt.len() implies #[trigger] alt[i] != p by {
        assert(alt[i] == a.alternative_destinations@[i]@);
    }
    assert(value_positions(s1, 0) =~= Seq::<int>::empty());
    lemma_alternative_run(u, p, s1, st1, alt, 0);
    let st2: AgentOptionIndices = (None, None, None, st1.3, value_positions(s1, alt.len()), Seq::empty());
    let s2 = exclusions_start(a);
    assert forall|i: int| 0 <= i < kinds.len() implies #[trigger] u[s2 + 2 * i] == "exclude"@ && u[s2 + 2 * i + 1]
        == connector_kind_word(kinds[i]) by {
        assert(u[exclusions_start(a) + 2 * i] == "exclude"@);
    }
    assert(kinds.take(0) =~= Seq::<ConnectorKind>::empty());
    lemma_exclude_run(u, p, s2, st2, kinds, 0);
    let r = release_start(a);
    let rt = release_tokens(a);
    let fin: AgentOptionIndices = (Some(r + 1), interval_index(a), batch_index(a), st1.3, st2.4, kinds);
    assert(u[r + 0] == rt[0]);
    assert(u[r + 1] == rt[1]);
    assert(u[r] == "release"@);
    match a.release_interval {
        None => {
            assert(rt.len() == 2);
            assert(agent_options_from(u, p, r + 2, (Some(r + 1), None, None, st1.3, st2.4, kinds)) == Some(fin));
        },
        Some(q) => {
            assert(u[r + 2] == rt[2] && u[r + 3] == rt[3]);
            assert(u[r + 2] == "every"@);
            assert(duration_ok(u[r + 3]));
            match a.release_batch_size {
                None => {
                    assert(rt.len() == 4);
                    assert(agent_options_from(u, p, r + 4, (Some(r + 1), Some(r + 3), None, st1.3, st2.4, kinds))
                        == Some(fin));
                },
                Some(b) => {
                    assert(rt.len() == 6);
                    assert(u[r + 4] == rt[4] && u[r + 5] == rt[5]);
                    assert(u[r + 4] == "batch"@);
                    lemma_decimal_reads_back(b as nat);
                    assert(u32_ok(u[r + 5]));
                    assert(agent_options_from(u, p, r + 6, fin) == Some(fin));
                },
            }
        },
    }
}

/// The tokens at positions `ix` are distinct and none is `primary`.
pub open spec fn distinct_values(tv: Seq<Seq<char>>, ix: Seq<int>, primary: Seq<char>) -> bool {
    &&& forall|j: int| 0 <= j < ix.len() ==> 0 <= #[trigger] ix[j] < tv.len() && tv[ix[j]] != primary
    &&& forall|i: int, j: int| 0 <= i < ix.len() && 0 <= j < ix.len() && i != j ==> tv[#[trigger] ix[i]] != tv[#[trigger] ix[j]]
}

/// The alternative exits the clauses of an agent group hold are distinct
/// and none is its primary exit.
proof fn lemma_alternatives_distinct(tv: Seq<Seq<char>>, primary: Seq<char>, idx: int, st: AgentOptionIndices)
    requires
        agent_options_from(tv, primary, idx, st) is Some,
        distinct_values(tv, st.4, primary),
    ensures
        distinct_values(tv, (agent_options_from(tv, primary, idx, st)->0).4, primary),
    decreases tv.len() - idx,
{
    if idx < 0 || idx >= tv.len() {
    } else {
        let t = tv[idx];
        if t == "release"@ && st.0 is None {
            if idx + 1 >= tv.len() || !duration_ok(tv[idx + 1]) {
            } else if idx + 2 < tv.len() && tv[idx + 2] == "every"@ {
                if idx + 3 >= tv.len() || !duration_ok(tv[idx + 3]) {
                } else if idx + 4 < tv.len() && tv[idx + 4] == "batch"@ {
                    if idx + 5 >= tv.len() || !u32_ok(tv[idx + 5]) {
                    } else {
                        lemma_alternatives_distinct(tv, primary, idx + 6, (Some(idx + 1), Some(idx + 3), Some(idx + 5), st.3, st.4, st.5));
                    }
                } else {
                    lemma_alternatives_distinct(tv, primary, idx + 4, (Some(idx + 1), Some(idx + 3), st.2, st.3, st.4, st.5));
                }
            } else {
                lemma_alternatives_distinct(tv, primary, idx + 2, (Some(idx + 1), st.1, st.2, st.3, st.4, st.5));
            }
        } else if t == "via"@ {
            if idx + 1 < tv.len() {
                lemma_alternatives_distinct(tv, primary, idx + 2, (st.0, st.1, st.2, st.3.push(idx + 1), st.4, st.5));
            }
        } else if t == "alternative"@ {
            if idx + 1 < tv.len() && !(tv[idx + 1] == primary || exists|j: int|
                0 <= j < st.4.len() && 0 <= st.4[j] < tv.len() && #[trigger] tv[st.4[j]] == tv[idx + 1]) {
                let n4 = st.4.push(idx + 1);
                assert forall|j: int| 0 <= j < n4.len() implies 0 <= #[trigger] n4[j] < tv.len() && tv[n4[j]] != primary by {
                    if j < st.4.len() {
                        assert(n4[j] == st.4[j]);
                    }
                }
                assert forall|i: int, j: int| 0 <= i < n4.len() && 0 <= j < n4.len() && i != j implies tv[#[trigger] n4[i]]
                    != tv[#[trigger] n4[j]] by {
                    if i < st.4.len() && j < st.4.len() {
                        assert(n4[i] == st.4[i] && n4[j] == st.4[j]);
                    } else if i < st.4.len() {
                        assert(n4[i] == st.4[i]);
                        assert(0 <= st.4[i] < tv.len());
                    } else {
                        assert(n4[j] == st.4[j]);
                        assert(0 <= st.4[j] < tv.len());
                    }
                }
                lemma_alternatives_distinct(tv, primary, idx + 2, (st.0, st.1, st.2, st.3, n4, st.5));
            }
        } else if t == "exclude"@ {
            if idx + 1 < tv.len() {
                match connector_kind_of(tv[idx + 1]) {
                    None => {},
                    Some(k) => {
                        if !st.5.contains(k) {
                            lemma_alternatives_distinct(tv, primary, idx + 2, (st.0, st.1, st.2, st.3, st.4, st.5.push(k)));
                        }
                    },
                }
            }
        }
    }
}

/// Connector kinds in the canonical order are distinct, and putting them in
/// that order again changes nothing.
pub proof fn lemma_kinds_in_order(x: Seq<ConnectorKind>)
    ensures
        forall|i: int, j: int|
            0 <= i < kinds_in_order(x).len() && 0 <= j < kinds_in_order(x).len() && i != j ==> kinds_in_order(x)[i]
                != kinds_in_order(x)[j],
        kinds_in_order(kinds_in_order(x)) == kinds_in_order(x),
{
    let y = kinds_in_order(x);
    let s = x.contains(ConnectorKind::Stair);
    let r = x.contains(ConnectorKind::Ramp);
    let e = x.contains(ConnectorKind::Escalator);
    let l = x.contains(ConnectorKind::Lift);
    let a = only_if(s, ConnectorKind::Stair);
    let b = only_if(r, ConnectorKind::Ramp);
    let c = only_if(e, ConnectorKind::Escalator);
    let d = only_if(l, ConnectorKind::Lift);
    assert(y == a + b + c + d);
    assert forall|k: ConnectorKind| #[trigger] y.contains(k) <==> x.contains(k) by {
        if x.contains(k) {
            match k {
                ConnectorKind::Stair => { assert(y[0] == k); },
                ConnectorKind::Ramp => { assert(y[a.len() as int] == k); },
                ConnectorKind::Escalator => { assert(y[(a.len() + b.len()) as int] == k); },
                ConnectorKind::Lift => { assert(y[(a.len() + b.len() + c.len()) as int] == k); },
            }
        }
        if y.contains(k) {
            let i = choose|i: int| 0 <= i < y.len() && y[i] == k;
            if i < a.len() {
                assert(y[i] == a[i]);
            } else if i < a.len() + b.len() {
                assert(y[i] == b[i - a.len()]);
            } else if i < a.len() + b.len() + c.len() {
                assert(y[i] == c[i - a.len() - b.len()]);
            } else {
                assert(y[i] == d[i - a.len() - b.len() - c.len()]);
            }
        }
    }
    assert(y.contains(ConnectorKind::Stair) == s);
    assert(y.contains(ConnectorKind::Ramp) == r);
    assert(y.contains(ConnectorKind::Escalator) == e);
    assert(y.contains(ConnectorKind::Lift) == l);
    assert forall|i: int, j: int| 0 <= i < y.len() && 0 <= j < y.len() && i != j implies y[i] != y[j] by {
        let rank = |k: ConnectorKind| match k {
            ConnectorKind::Stair => 0int,
            ConnectorKind::Ramp => 1int,
            ConnectorKind::Escalator => 2int,
            ConnectorKind::Lift => 3int,
        };
        assert forall|m: int, n: int| 0 <= m < n < y.len() implies rank(y[m]) < rank(y[n]) by {
            if m < a.len() {
                assert(y[m] == a[m]);
            } else if m < a.len() + b.len() {
                assert(y[m] == b[m - a.len()]);
            } else if m < a.len() + b.len() + c.len() {
                assert(y[m] == c[m - a.len() - b.len()]);
            } else {
                assert(y[m] == d[m - a.len() - b.len() - c.len()]);
            }
            if n < a.len() {
                assert(y[n] == a[n]);
            } else if n < a.len() + b.len() {
                assert(y[n] == b[n - a.len()]);
            } else if n < a.len() + b.len() + c.len() {
                assert(y[n] == c[n - a.len() - b.len()]);
            } else {
                assert(y[n] == d[n - a.len() - b.len() - c.len()]);
            }
        }
        if i < j {
            assert(rank(y[i]) < rank(y[j]));
        } else {
            assert(rank(y[j]) < rank(y[i]));
        }
    }
}

/// The head tokens of an accepted agent group line are those it writes,
/// but for the count, which it writes in decimal.
#[verifier::spinoff_prover]
#[verifier::rlimit(50)]
proof fn lemma_agents_source_head(a: AgentsDecl, tv: Seq<Seq<char>>)
    requires
        tv[0] == "agents"@,
        agents_is(a, tv),
        agents_ok(tv),
    ensures
        head_len(a) == 18 + speed_shift(tv),
        agents_head(a) == tv.take(head_len(a)).update(3, decimal(a.count as nat)),
{
    reveal_strlit("m");
    reveal_strlit("m/s");
    assert("m"@ == crate::syntax::meters());
    assert("m/s"@ == crate::syntax::meters_per_second());
    let s = speed_shift(tv);
    lemma_unit_token(a.at.x, tv[7], "m"@);
    lemma_unit_token(a.at.y, tv[8], "m"@);
    lemma_unit_token(a.at.z, tv[9], "m"@);
    if let AgentSpeed::Given(q) = a.speed {
        lemma_unit_token(q, tv[13], "m/s"@);
    }
    lemma_unit_token(a.radius, tv[15 + s], "m"@);
    lemma_unit_token(a.height, tv[17 + s], "m"@);
    assert(agents_head(a) =~= tv.take(head_len(a)).update(3, decimal(a.count as nat)));
}

/// The waypoints and alternative exits of an accepted agent group line are
/// canonical tokens; the alternatives are distinct and none is the primary
/// exit.
#[verifier::spinoff_prover]
#[verifier::rlimit(50)]
proof fn lemma_agents_source_clauses(a: AgentsDecl, tv: Seq<Seq<char>>)
    requires
        agents_is(a, tv),
        agents_ok(tv),
        canonical_tokens(tv),
    ensures
        forall|i: int| 0 <= i < a.via@.len() ==> canonical_word(#[trigger] a.via@[i]@),
        forall|i: int| 0 <= i < a.alternative_destinations@.len() ==> canonical_word(#[trigger] a.alternative_destinations@[i]@),
        forall|i: int, j: int|
            0 <= i < a.alternative_destinations@.len() && 0 <= j < a.alternative_destinations@.len() && i != j
                ==> a.alternative_destinations@[i]@ != a.alternative_destinations@[j]@,
        forall|i: int| 0 <= i < a.alternative_destinations@.len() ==> (#[trigger] a.alternative_destinations@[i])@ != a.destination@,
{
    let o = agent_options(tv)->0;
    let init: AgentOptionIndices = (None, None, None, Seq::empty(), Seq::empty(), Seq::empty());
    lemma_alternatives_distinct(tv, tv[11], 18 + speed_shift(tv), init);
    assert(distinct_values(tv, o.4, tv[11]));
    assert forall|i: int| 0 <= i < a.via@.len() implies canonical_word(#[trigger] a.via@[i]@) by {
        assert(0 <= o.3[i] < tv.len());
    }
    assert forall|i: int| 0 <= i < a.alternative_destinations@.len() implies canonical_word(#[trigger] a.alternative_destinations@[i]@) && a.alternative_destinations@[i]@ != a.destination@ by {
        assert(0 <= o.4[i] < tv.len());
    }
    assert forall|i: int, j: int|
        0 <= i < a.alternative_destinations@.len() && 0 <= j < a.alternative_destinations@.len() && i != j implies a.alternative_destinations@[i]@
            != a.alternative_destinations@[j]@ by {
        assert(tv[o.4[i]] != tv[o.4[j]]);
    }
}

/// The excluded kinds of an accepted agent group line are distinct, and its
/// release time is a canonical duration token.
#[verifier::spinoff_prover]
#[verifier::rlimit(50)]
proof fn lemma_agents_source_rest(a: AgentsDecl, tv: Seq<Seq<char>>)
    requires
        agents_is(a, tv),
        agents_ok(tv),
        canonical_tokens(tv),
    ensures
        forall|i: int, j: int|
            0 <= i < a.excluded_connector_kinds@.len() && 0 <= j < a.excluded_connector_kinds@.len() && i != j
                ==> a.excluded_connector_kinds@[i] != a.excluded_connector_kinds@[j],
        canonical_word(release_token(a)),
        duration_ok(release_token(a)),
        cadence_ok(a),
        a.release_interval matches Some(q) ==> canonical_word(duration_text(q)),
{
    let o = agent_options(tv)->0;
    lemma_kinds_in_order(o.5);
    lemma_zero_seconds();
    if let Some(q) = a.release_at {
        lemma_duration_token(q, tv[o.0->0]);
    }
    if let Some(q) = a.release_interval {
        lemma_duration_token(q, tv[o.1->0]);
        assert(duration_ok(tv[o.1->0])) by {
            lemma_interval_index_ok(
                tv,
                tv[11],
                18 + speed_shift(tv),
                (None, None, None, Seq::empty(), Seq::empty(), Seq::empty()),
            );
        }
    }
}

/// Every index of a release interval that the clauses of an agent group
/// record holds a duration token.
proof fn lemma_interval_index_ok(tv: Seq<Seq<char>>, primary: Seq<char>, idx: int, st: AgentOptionIndices)
    requires
        agent_options_from(tv, primary, idx, st) is Some,
        st.1 matches Some(k) ==> 0 <= k < tv.len() && duration_ok(tv[k]),
    ensures
        (agent_options_from(tv, primary, idx, st)->0).1 matches Some(k) ==> 0 <= k < tv.len() && duration_ok(tv[k]),
    decreases tv.len() - idx,
{
    if idx < 0 || idx >= tv.len() {
    } else {
        let t = tv[idx];
        if t == "release"@ && st.0 is None {
            if idx + 2 < tv.len() && tv[idx + 2] == "every"@ {
                if idx + 4 < tv.len() && tv[idx + 4] == "batch"@ {
                    lemma_interval_index_ok(tv, primary, idx + 6, (Some(idx + 1), Some(idx + 3), Some(idx + 5), st.3, st.4, st.5));
                } else {
                    lemma_interval_index_ok(tv, primary, idx + 4, (Some(idx + 1), Some(idx + 3), st.2, st.3, st.4, st.5));
                }
            } else {
                lemma_interval_index_ok(tv, primary, idx + 2, (Some(idx + 1), st.1, st.2, st.3, st.4, st.5));
            }
        } else if t == "via"@ {
            lemma_interval_index_ok(tv, primary, idx + 2, (st.0, st.1, st.2, st.3.push(idx + 1), st.4, st.5));
        } else if t == "alternative"@ {
            if !(tv[idx + 1] == primary || exists|j: int|
                0 <= j < st.4.len() && 0 <= st.4[j] < tv.len() && #[trigger] tv[st.4[j]] == tv[idx + 1]) {
                lemma_interval_index_ok(tv, primary, idx + 2, (st.0, st.1, st.2, st.3, st.4.push(idx + 1), st.5));
            }
        } else if t == "exclude"@ {
            if let Some(k) = connector_kind_of(tv[idx + 1]) {
                if !st.5.contains(k) {
                    lemma_interval_index_ok(tv, primary, idx + 2, (st.0, st.1, st.2, st.3, st.4, st.5.push(k)));
                }
            }
        }
    }
}

proof fn lemma_canonical_concat(x: Seq<Seq<char>>, y: Seq<Seq<char>>)
    requires
        canonical_tokens(x),
        canonical_tokens(y),
    ensures
        canonical_tokens(x + y),
{
    assert forall|i: int| 0 <= i < (x + y).len() implies canonical_word(#[trigger] (x + y)[i]) by {
        if i < x.len() {
            assert((x + y)[i] == x[i]);
        } else {
            assert((x + y)[i] == y[i - x.len()]);
        }
    }
}

proof fn lemma_clause_tokens_canonical(items: Seq<Seq<char>>, word: Seq<char>)
    requires
        canonical_word(word),
        canonical_tokens(items),
    ensures
        canonical_tokens(clause_tokens(items, word)),
    decreases items.len(),
{
    if items.len() > 0 {
        let init = items.drop_last();
        assert forall|i: int| 0 <= i < init.len() implies canonical_word(#[trigger] init[i]) by {
            assert(init[i] == items[i]);
        }
        lemma_clause_tokens_canonical(init, word);
        assert(canonical_word(items[items.len() - 1]));
        lemma_canonical_concat(clause_tokens(init, word), seq![word, items.last()]);
    }
}

proof fn lemma_body_accepted_agents(tv: Seq<Seq<char>>)
    requires
        tv.len() > 0,
        tv[0] == "agents"@,
        agents_ok(tv),
    ensures
        declaration_accepted(tv, true, true, true, true),
{
    lemma_keyword_letters();
}

/// The canonical tokens of an accepted agent group line are canonical words.
#[verifier::spinoff_prover]
#[verifier::rlimit(50)]
proof fn lemma_agents_tokens_canonical_from(a: AgentsDecl, tv: Seq<Seq<char>>)
    requires
        tv.len() >= head_len(a),
        agents_head(a) == tv.take(head_len(a)).update(3, decimal(a.count as nat)),
        canonical_tokens(tv),
        forall|i: int| 0 <= i < a.via@.len() ==> canonical_word(#[trigger] a.via@[i]@),
        forall|i: int| 0 <= i < a.alternative_destinations@.len() ==> canonical_word(#[trigger] a.alternative_destinations@[i]@),
        canonical_word(release_token(a)),
        a.release_interval matches Some(q) ==> canonical_word(duration_text(q)),
    ensures
        canonical_tokens(agents_tokens(a)),
{
    let via = string_views(a.via@);
    let alt = string_views(a.alternative_destinations@);
    let ex = kind_words(a.excluded_connector_kinds@);
    let h = agents_head(a);
    lemma_decimal_word(a.count as nat);
    assert(canonical_word("via"@) && canonical_word("alternative"@) && canonical_word("exclude"@) && canonical_word(
        "release"@,
    )) by {
        reveal_strlit("via");
        reveal_strlit("alternative");
        reveal_strlit("exclude");
        reveal_strlit("release");
    }
    assert forall|i: int| 0 <= i < h.len() implies canonical_word(#[trigger] h[i]) by {
        if i != 3 {
            assert(h[i] == tv.take(head_len(a))[i]);
        }
    }
    assert forall|i: int| 0 <= i < via.len() implies canonical_word(#[trigger] via[i]) by {
        assert(via[i] == a.via@[i]@);
    }
    assert forall|i: int| 0 <= i < alt.len() implies canonical_word(#[trigger] alt[i]) by {
        assert(alt[i] == a.alternative_destinations@[i]@);
    }
    assert forall|i: int| 0 <= i < ex.len() implies canonical_word(#[trigger] ex[i]) by {
        reveal_strlit("stair");
        reveal_strlit("ramp");
        reveal_strlit("escalator");
        reveal_strlit("lift");
    }
    lemma_clause_tokens_canonical(via, "via"@);
    lemma_clause_tokens_canonical(alt, "alternative"@);
    lemma_clause_tokens_canonical(ex, "exclude"@);
    let rel = release_tokens(a);
    assert(canonical_tokens(rel)) by {
        reveal_strlit("every");
        reveal_strlit("batch");
        if let Some(b) = a.release_batch_size {
            lemma_decimal_word(b as nat);
        }
        assert(canonical_word("every"@) && canonical_word("batch"@));
        assert forall|i: int| 0 <= i < rel.len() implies canonical_word(#[trigger] rel[i]) by {
            if i >= 2 {
                assert(rel[i] == cadence_tokens(a)[i - 2]);
            }
        }
    }
    lemma_canonical_concat(h, clause_tokens(via, "via"@));
    lemma_canonical_concat(h + clause_tokens(via, "via"@), clause_tokens(alt, "alternative"@));
    lemma_canonical_concat(h + clause_tokens(via, "via"@) + clause_tokens(alt, "alternative"@), clause_tokens(ex, "exclude"@));
    lemma_canonical_concat(
        h + clause_tokens(via, "via"@) + clause_tokens(alt, "alternative"@) + clause_tokens(ex, "exclude"@),
        rel,
    );
}

/// The canonical tokens of an accepted agent group line are canonical words.
proof fn lemma_agents_tokens_canonical(a: AgentsDecl, tv: Seq<Seq<char>>)
    requires
        tv[0] == "agents"@,
        agents_is(a, tv),
        agents_ok(tv),
        canonical_tokens(tv),
    ensures
        canonical_tokens(agents_tokens(a)),
{
    lemma_agents_source_head(a, tv);
    lemma_agents_source_clauses(a, tv);
    lemma_agents_source_rest(a, tv);
    lemma_agents_tokens_canonical_from(a, tv);
}

/// The agent group rule accepts the canonical tokens of an accepted agent
/// group line.
#[verifier::spinoff_prover]
#[verifier::rlimit(50)]
proof fn lemma_agents_tokens_ok(a: AgentsDecl, tv: Seq<Seq<char>>)
    requires
        tv[0] == "agents"@,
        agents_is(a, tv),
        agents_ok(tv),
        canonical_tokens(tv),
    ensures
        agents_ok(agents_tokens(a)),
        agents_tokens(a)[0] == "agents"@,
{
    let u = agents_tokens(a);
    let h = agents_head(a);
    lemma_agents_source_head(a, tv);
    lemma_agents_source_clauses(a, tv);
    lemma_agents_source_rest(a, tv);
    lemma_agents_options(a);
    lemma_agents_tokens_index(a);
    lemma_decimal_reads_back(a.count as nat);
    lemma_head_shift(a);
    let s = speed_shift(tv);
    assert forall|i: int| 0 <= i < head_len(a) && i != 3 implies #[trigger] u[i] == tv[i] by {
        assert(u[i] == h[i]);
    }
    assert(u[3] == decimal(a.count as nat));
    assert(u[2] == tv[2] && u[4] == tv[4] && u[6] == tv[6] && u[10] == tv[10] && u[12] == tv[12]);
    assert(u[14 + s] == tv[14 + s] && u[16 + s] == tv[16 + s] && u[7] == tv[7] && u[8] == tv[8] && u[9] == tv[9]);
    assert(u[13] == tv[13] && u[15 + s] == tv[15 + s] && u[17 + s] == tv[17 + s] && u[11] == tv[11]);
}

/// An agent group read from another's canonical tokens has the same
/// canonical tokens.
#[verifier::spinoff_prover]
#[verifier::rlimit(100)]
proof fn lemma_agents_reread(a: AgentsDecl, a2: AgentsDecl)
    requires
        cadence_ok(a),
        forall|i: int, j: int|
            0 <= i < a.alternative_destinations@.len() && 0 <= j < a.alternative_destinations@.len() && i != j
                ==> a.alternative_destinations@[i]@ != a.alternative_destinations@[j]@,
        forall|i: int| 0 <= i < a.alternative_destinations@.len() ==> (#[trigger] a.alternative_destinations@[i])@ != a.destination@,
        forall|i: int, j: int|
            0 <= i < a.excluded_connector_kinds@.len() && 0 <= j < a.excluded_connector_kinds@.len() && i != j
                ==> a.excluded_connector_kinds@[i] != a.excluded_connector_kinds@[j],
        duration_ok(release_token(a)),
        kinds_in_order(a.excluded_connector_kinds@) == a.excluded_connector_kinds@,
        agents_ok(agents_tokens(a)),
        agents_tokens(a)[0] == "agents"@,
        agents_is(a2, agents_tokens(a)),
    ensures
        agents_tokens(a2) == agents_tokens(a),
        agents_seps(a2) == agents_seps(a),
{
    let u = agents_tokens(a);
    lemma_agents_options(a);
    lemma_agents_tokens_index(a);
    lemma_head_shift(a);
    lemma_agents_source_head(a2, u);
    lemma_decimal_reads_back(a.count as nat);
    let o = agent_options(u)->0;
    assert(a2.count == a.count);
    assert(head_len(a2) == head_len(a));
    assert(agents_head(a2) =~= agents_head(a)) by {
        assert forall|i: int| 0 <= i < head_len(a) implies #[trigger] agents_head(a2)[i] == agents_head(a)[i] by {
            assert(u[i] == agents_head(a)[i]);
        }
    }
    assert(string_views(a2.via@) =~= string_views(a.via@)) by {
        assert forall|j: int| 0 <= j < a.via@.len() implies #[trigger] a2.via@[j]@ == a.via@[j]@ by {
            assert(o.3[j] == head_len(a) + 2 * j + 1);
            assert(u[head_len(a) + 2 * j] == "via"@);
        }
    }
    assert(string_views(a2.alternative_destinations@) =~= string_views(a.alternative_destinations@)) by {
        assert forall|j: int| 0 <= j < a.alternative_destinations@.len() implies #[trigger] a2.alternative_destinations@[j]@
            == a.alternative_destinations@[j]@ by {
            assert(o.4[j] == alternatives_start(a) + 2 * j + 1);
            assert(u[alternatives_start(a) + 2 * j] == "alternative"@);
        }
    }
    assert(a2.excluded_connector_kinds@ == a.excluded_connector_kinds@);
    let r = release_start(a);
    let q2 = a2.release_at->0;
    lemma_duration_token(q2, u[r + 1]);
    assert(release_token(a2) == release_token(a));
    lemma_cadence_reread(a, a2);
    assert(release_tokens(a2) == release_tokens(a));
}

/// An agent group read from another's canonical tokens has the same release
/// cadence tokens.
#[verifier::spinoff_prover]
#[verifier::rlimit(80)]
proof fn lemma_cadence_reread(a: AgentsDecl, a2: AgentsDecl)
    requires
        crate::syntax::quantity_option_is(
            a2.release_interval,
            interval_index(a),
            agents_tokens(a),
            |q: crate::syntax::Quantity, t: Seq<char>| crate::syntax::duration_is(q, t),
        ),
        match (a2.release_batch_size, batch_index(a)) {
            (None, None) => true,
            (Some(b), Some(k)) => 0 <= k < agents_tokens(a).len() && crate::literal::unsigned_literal(
                agents_tokens(a)[k],
            ) == Some(b as nat),
            _ => false,
        },
        agents_tokens(a).len() == release_start(a) + release_tokens(a).len(),
        forall|i: int| 0 <= i < release_tokens(a).len() ==> #[trigger] agents_tokens(a)[release_start(a) + i]
            == release_tokens(a)[i],
    ensures
        cadence_tokens(a2) == cadence_tokens(a),
{
    let u = agents_tokens(a);
    let r = release_start(a);
    let rt = release_tokens(a);
    if let Some(q) = a.release_interval {
        assert(u[r + 3] == rt[3]);
        let q2 = a2.release_interval->0;
        lemma_duration_token(q2, u[r + 3]);
        if let Some(b) = a.release_batch_size {
            assert(u[r + 5] == rt[5]);
            lemma_decimal_reads_back(b as nat);
            assert(a2.release_batch_size == Some(b));
        } else {
            assert(a2.release_batch_size is None);
        }
    } else {
        assert(a2.release_interval is None);
    }
}

proof fn lemma_agents_seps(a: AgentsDecl)
    ensures
        forall|i: int| 0 <= i < agents_seps(a).len() ==> inline_separator(#[trigger] agents_seps(a)[i]),
        forall|i: int| 1 <= i < agents_seps(a).len() ==> (#[trigger] agents_seps(a)[i]).len() > 0,
{
    lemma_separators();
    let seps = agents_seps(a);
    assert forall|i: int| 0 <= i < seps.len() implies inline_separator(#[trigger] seps[i]) && (i >= 1 ==> seps[i].len() > 0) by {
        if i < head_len(a) {
            assert(seps[i] == head_seps(a)[i]);
        } else {
            assert(seps[i] == " "@);
        }
    }
}

proof fn lemma_agents_kinds_ordered(a: AgentsDecl, tv: Seq<Seq<char>>)
    requires
        agents_is(a, tv),
    ensures
        kinds_in_order(a.excluded_connector_kinds@) == a.excluded_connector_kinds@,
{
    lemma_kinds_in_order((agent_options(tv)->0).5);
}

/// An agent group read from another's canonical tokens is written as the
/// same line.
#[verifier::spinoff_prover]
#[verifier::rlimit(100)]
proof fn lemma_agents_same_text(a: AgentsDecl, a2: AgentsDecl)
    requires
        cadence_ok(a),
        forall|i: int, j: int|
            0 <= i < a.alternative_destinations@.len() && 0 <= j < a.alternative_destinations@.len() && i != j
                ==> a.alternative_destinations@[i]@ != a.alternative_destinations@[j]@,
        forall|i: int| 0 <= i < a.alternative_destinations@.len() ==> (#[trigger] a.alternative_destinations@[i])@ != a.destination@,
        forall|i: int, j: int|
            0 <= i < a.excluded_connector_kinds@.len() && 0 <= j < a.excluded_connector_kinds@.len() && i != j
                ==> a.excluded_connector_kinds@[i] != a.excluded_connector_kinds@[j],
        duration_ok(release_token(a)),
        kinds_in_order(a.excluded_connector_kinds@) == a.excluded_connector_kinds@,
        agents_ok(agents_tokens(a)),
        agents_tokens(a)[0] == "agents"@,
        agents_is(a2, agents_tokens(a)),
    ensures
        agents_text(a2) == agents_text(a),
{
    lemma_agents_reread(a, a2);
    lemma_agents_text(a);
    lemma_agents_text(a2);
}

/// Whatever the canonical tokens of an agent group denote is written as the
/// same line.
#[verifier::spinoff_prover]
#[verifier::rlimit(100)]
proof fn lemma_agents_denotation(a: AgentsDecl)
    requires
        cadence_ok(a),
        forall|i: int, j: int|
            0 <= i < a.alternative_destinations@.len() && 0 <= j < a.alternative_destinations@.len() && i != j
                ==> a.alternative_destinations@[i]@ != a.alternative_destinations@[j]@,
        forall|i: int| 0 <= i < a.alternative_destinations@.len() ==> (#[trigger] a.alternative_destinations@[i])@ != a.destination@,
        forall|i: int, j: int|
            0 <= i < a.excluded_connector_kinds@.len() && 0 <= j < a.excluded_connector_kinds@.len() && i != j
                ==> a.excluded_connector_kinds@[i] != a.excluded_connector_kinds@[j],
        duration_ok(release_token(a)),
        kinds_in_order(a.excluded_connector_kinds@) == a.excluded_connector_kinds@,
        agents_ok(agents_tokens(a)),
        agents_tokens(a)[0] == "agents"@,
    ensures
        forall|e: Declaration| #[trigger] declaration_is(e, agents_tokens(a)) ==> declaration_text(e) == declaration_text(
            Declaration::Agents(a),
        ) && section_of(e) == section_of(Declaration::Agents(a)),
{
    lemma_keyword_letters();
    let u = agents_tokens(a);
    let d = Declaration::Agents(a);
    lemma_agents_text(a);
    assert forall|e: Declaration| #[trigger] declaration_is(e, u) implies declaration_text(e) == declaration_text(d)
        && section_of(e) == section_of(d) by {
        if let Declaration::Agents(a2) = e {
            lemma_agents_same_text(a, a2);
        }
    }
}

/// The canonical line of an agent group reads back as its canonical tokens,
/// and whatever those tokens denote is written as the same line.
#[verifier::spinoff_prover]
#[verifier::rlimit(50)]
pub proof fn lemma_agents_line(a: AgentsDecl, tv: Seq<Seq<char>>)
    requires
        agents_ok(tv),
        declaration_is(Declaration::Agents(a), tv),
        canonical_tokens(tv),
    ensures
        reads_back_as(Declaration::Agents(a), agents_tokens(a)),
{
    let u = agents_tokens(a);
    let seps = agents_seps(a);
    lemma_agents_text(a);
    lemma_agents_tokens_canonical(a, tv);
    lemma_agents_tokens_ok(a, tv);
    lemma_agents_source_clauses(a, tv);
    lemma_agents_source_rest(a, tv);
    lemma_agents_kinds_ordered(a, tv);
    lemma_agents_seps(a);
    lemma_separators();
    lemma_line_tokens_of_prefixed(u, seps, ""@);
    lemma_body_accepted_agents(u);
    lemma_agents_denotation(a);
}

} // verus!
