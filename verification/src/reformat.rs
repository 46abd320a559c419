//! Canonical text read back as a whole: the canonical source of a parsed
//! scenario is accepted by the parser, and whatever it parses to is written
//! as the same text again.

use vstd::prelude::*;
use crate::formatter::{declaration_text, duration_text, scenario_text, section_count, section_of, section_text, sections_text};
use crate::parser::ParsedScenario;
use crate::text::decimal;
use crate::canonical::{lemma_decimal_reads_back, lemma_declaration_reads_back, lemma_duration_token, canonical_tokens, canonical_word, lemma_keyword_letters, reads_back_as, lemma_before_comment_without_hash, lemma_decimal_word, lemma_header_words, lemma_keyword_value_line};
use crate::lexer::{before_comment, lex, lemma_tokens_of_word_then_quoted, newline_pieces, plain_word, source_lines, strip_carriage_return};
use crate::parser::{parsed_is, source_accepted, declaration_lines, declares, first_rejected, line_rejected, line_tokens};
use crate::syntax::declaration_accepted;
use crate::syntax::{declaration_is, duration_ok, Declaration};

verus! {

/// Lines, each ended by `\n`.
pub open spec fn joined(lines: Seq<Seq<char>>) -> Seq<char>
    decreases lines.len(),
{
    if lines.len() == 0 {
        Seq::empty()
    } else {
        joined(lines.drop_last()) + lines.last() + seq!['\n']
    }
}

/// A line that stays one line: no `\n`, and no `\r` at its end.
pub open spec fn single_line(l: Seq<char>) -> bool {
    &&& forall|i: int| 0 <= i < l.len() ==> #[trigger] l[i] != '\n'
    &&& !(l.len() > 0 && l.last() == '\r')
}

proof fn lemma_pieces_of_joined(lines: Seq<Seq<char>>, l: Seq<char>)
    requires
        forall|i: int| 0 <= i < l.len() ==> #[trigger] l[i] != '\n',
        forall|k: int| 0 <= k < lines.len() ==> single_line(#[trigger] lines[k]),
    ensures
        newline_pieces(joined(lines) + l) == lines.push(l),
    decreases lines.len(), l.len(),
{
    let s = joined(lines) + l;
    if l.len() > 0 {
        assert forall|i: int| 0 <= i < l.drop_last().len() implies #[trigger] l.drop_last()[i] != '\n' by {
            assert(l.drop_last()[i] == l[i]);
        }
        lemma_pieces_of_joined(lines, l.drop_last());
        assert(s.drop_last() =~= joined(lines) + l.drop_last());
        assert(s.last() == l[l.len() - 1]);
        assert(l.drop_last().push(l.last()) =~= l);
        assert(lines.push(l.drop_last()).update(lines.len() as int, l) =~= lines.push(l));
    } else if lines.len() == 0 {
        assert(s =~= Seq::<char>::empty());
        assert(lines.push(l) =~= seq![Seq::<char>::empty()]);
    } else {
        let prev = lines.drop_last();
        assert forall|k: int| 0 <= k < prev.len() implies single_line(#[trigger] prev[k]) by {
            assert(prev[k] == lines[k]);
        }
        assert(single_line(lines[lines.len() - 1]));
        lemma_pieces_of_joined(prev, lines.last());
        assert(s =~= joined(prev) + lines.last() + seq!['\n']);
        assert(s.drop_last() =~= joined(prev) + lines.last());
        assert(prev.push(lines.last()) =~= lines);
        assert(l =~= Seq::<char>::empty());
    }
}

/// The lines of joined lines are those lines.
pub proof fn lemma_source_lines_of_joined(lines: Seq<Seq<char>>)
    requires
        forall|k: int| 0 <= k < lines.len() ==> single_line(#[trigger] lines[k]),
    ensures
        source_lines(joined(lines)) == lines,
{
    lemma_pieces_of_joined(lines, Seq::empty());
    assert(joined(lines) + Seq::<char>::empty() =~= joined(lines));
    let s = joined(lines);
    let p = newline_pieces(s);
    if lines.len() > 0 {
        assert(s.last() == '\n');
    } else {
        assert(s.len() == 0);
    }
    assert forall|k: int| 0 <= k < lines.len() implies #[trigger] source_lines(s)[k] == lines[k] by {
        assert(p[k] == lines[k]);
        assert(single_line(lines[k]));
    }
    assert(source_lines(s) =~= lines);
}

/// Joining two lists of lines joins their texts.
pub proof fn lemma_joined_concat(a: Seq<Seq<char>>, b: Seq<Seq<char>>)
    ensures
        joined(a + b) == joined(a) + joined(b),
    decreases b.len(),
{
    if b.len() == 0 {
        assert(a + b =~= a);
        assert(joined(a) + joined(b) =~= joined(a));
    } else {
        lemma_joined_concat(a, b.drop_last());
        assert((a + b).drop_last() =~= a + b.drop_last());
        assert((a + b).last() == b.last());
        assert(joined(a) + (joined(b.drop_last()) + b.last() + seq!['\n']) =~= joined(a) + joined(b.drop_last())
            + b.last() + seq!['\n']);
    }
}

/// Each declaration's section and canonical line.
pub open spec fn tags(decls: Seq<Declaration>) -> Seq<(int, Seq<char>)> {
    decls.map_values(|d: Declaration| (section_of(d), declaration_text(d)))
}

/// The lines of the tagged lines of one section, in order.
pub open spec fn sec_lines(t: Seq<(int, Seq<char>)>, sec: int) -> Seq<Seq<char>>
    decreases t.len(),
{
    if t.len() == 0 {
        Seq::empty()
    } else {
        sec_lines(t.drop_last(), sec) + if t.last().0 == sec {
            seq![t.last().1]
        } else {
            Seq::empty()
        }
    }
}

/// The tagged lines of one section, in order.
pub open spec fn sec_tags(t: Seq<(int, Seq<char>)>, sec: int) -> Seq<(int, Seq<char>)>
    decreases t.len(),
{
    if t.len() == 0 {
        Seq::empty()
    } else {
        sec_tags(t.drop_last(), sec) + if t.last().0 == sec {
            seq![t.last()]
        } else {
            Seq::empty()
        }
    }
}

/// The lines of sections `0..n`, section by section.
pub open spec fn all_lines(t: Seq<(int, Seq<char>)>, n: int) -> Seq<Seq<char>>
    decreases n,
{
    if n <= 0 {
        Seq::empty()
    } else {
        all_lines(t, n - 1) + sec_lines(t, n - 1)
    }
}

/// The tagged lines of sections `0..n`, section by section.
pub open spec fn ordered_tags(t: Seq<(int, Seq<char>)>, n: int) -> Seq<(int, Seq<char>)>
    decreases n,
{
    if n <= 0 {
        Seq::empty()
    } else {
        ordered_tags(t, n - 1) + sec_tags(t, n - 1)
    }
}

/// The lines of tagged lines.
pub open spec fn texts(t: Seq<(int, Seq<char>)>) -> Seq<Seq<char>> {
    t.map_values(|p: (int, Seq<char>)| p.1)
}

proof fn lemma_section_text(decls: Seq<Declaration>, sec: int)
    ensures
        section_text(decls, sec) == joined(sec_lines(tags(decls), sec)),
    decreases decls.len(),
{
    if decls.len() > 0 {
        lemma_section_text(decls.drop_last(), sec);
        let t = tags(decls);
        assert(t.drop_last() =~= tags(decls.drop_last()));
        let rest = sec_lines(t.drop_last(), sec);
        assert(t.last() == (section_of(decls.last()), declaration_text(decls.last())));
        if section_of(decls.last()) == sec {
            let x = t.last().1;
            lemma_joined_concat(rest, seq![x]);
            assert(seq![x].drop_last() =~= Seq::<Seq<char>>::empty());
            assert(joined(seq![x].drop_last()) == Seq::<char>::empty());
            assert(seq![x].last() == x);
            assert(joined(seq![x]) =~= x + seq!['\n']);
            assert(section_text(decls, sec) =~= section_text(decls.drop_last(), sec) + (declaration_text(decls.last()) + seq!['\n']));
        } else {
            assert(rest + Seq::<Seq<char>>::empty() =~= rest);
        }
    }
}

/// The canonical body is the lines of sections `0..n`, joined.
pub proof fn lemma_sections_text(decls: Seq<Declaration>, n: int)
    ensures
        sections_text(decls, n) == joined(all_lines(tags(decls), n)),
    decreases n,
{
    if n > 0 {
        lemma_sections_text(decls, n - 1);
        lemma_section_text(decls, n - 1);
        lemma_joined_concat(all_lines(tags(decls), n - 1), sec_lines(tags(decls), n - 1));
    }
}

proof fn lemma_sec_lines_concat(a: Seq<(int, Seq<char>)>, b: Seq<(int, Seq<char>)>, sec: int)
    ensures
        sec_lines(a + b, sec) == sec_lines(a, sec) + sec_lines(b, sec),
    decreases b.len(),
{
    if b.len() == 0 {
        assert(a + b =~= a);
        assert(sec_lines(a, sec) + sec_lines(b, sec) =~= sec_lines(a, sec));
    } else {
        lemma_sec_lines_concat(a, b.drop_last(), sec);
        assert((a + b).drop_last() =~= a + b.drop_last());
        assert((a + b).last() == b.last());
        let tail = if b.last().0 == sec {
            seq![b.last().1]
        } else {
            Seq::<Seq<char>>::empty()
        };
        assert(sec_lines(a, sec) + (sec_lines(b.drop_last(), sec) + tail) =~= sec_lines(a, sec) + sec_lines(
            b.drop_last(),
            sec,
        ) + tail);
    }
}

proof fn lemma_sec_lines_of_sec_tags(t: Seq<(int, Seq<char>)>, s: int, sec: int)
    ensures
        sec_lines(sec_tags(t, s), sec) == if s == sec {
            sec_lines(t, sec)
        } else {
            Seq::<Seq<char>>::empty()
        },
    decreases t.len(),
{
    if t.len() > 0 {
        lemma_sec_lines_of_sec_tags(t.drop_last(), s, sec);
        let tail = if t.last().0 == s {
            seq![t.last()]
        } else {
            Seq::<(int, Seq<char>)>::empty()
        };
        lemma_sec_lines_concat(sec_tags(t.drop_last(), s), tail, sec);
        if t.last().0 == s {
            assert(tail.drop_last() =~= Seq::<(int, Seq<char>)>::empty());
            assert(sec_lines(tail.drop_last(), sec) == Seq::<Seq<char>>::empty());
            assert(tail.last() == t.last());
            assert(sec_lines(tail, sec) =~= if s == sec {
                seq![t.last().1]
            } else {
                Seq::<Seq<char>>::empty()
            });
        }
        assert(sec_lines(sec_tags(t, s), sec) =~= if s == sec {
            sec_lines(t, sec)
        } else {
            Seq::<Seq<char>>::empty()
        });
    }
}

proof fn lemma_sec_lines_of_ordered(t: Seq<(int, Seq<char>)>, n: int, sec: int)
    requires
        0 <= sec,
    ensures
        sec_lines(ordered_tags(t, n), sec) == if sec < n {
            sec_lines(t, sec)
        } else {
            Seq::<Seq<char>>::empty()
        },
    decreases n,
{
    if n > 0 {
        lemma_sec_lines_of_ordered(t, n - 1, sec);
        lemma_sec_lines_concat(ordered_tags(t, n - 1), sec_tags(t, n - 1), sec);
        lemma_sec_lines_of_sec_tags(t, n - 1, sec);
        assert(sec_lines(ordered_tags(t, n), sec) =~= if sec < n {
            sec_lines(t, sec)
        } else {
            Seq::<Seq<char>>::empty()
        });
    }
}

/// Putting the lines in section order does not change the canonical body.
pub proof fn lemma_all_lines_of_ordered(t: Seq<(int, Seq<char>)>, n: int, m: int)
    requires
        m <= n,
    ensures
        all_lines(ordered_tags(t, n), m) == all_lines(t, m),
    decreases m,
{
    if m > 0 {
        lemma_all_lines_of_ordered(t, n, m - 1);
        lemma_sec_lines_of_ordered(t, n, m - 1);
    }
}

/// Lines with no section add nothing to the canonical body.
pub proof fn lemma_all_lines_skip_unsectioned(h: Seq<(int, Seq<char>)>, t: Seq<(int, Seq<char>)>, m: int)
    requires
        forall|i: int| 0 <= i < h.len() ==> (#[trigger] h[i]).0 < 0,
    ensures
        all_lines(h + t, m) == all_lines(t, m),
    decreases m,
{
    if m > 0 {
        lemma_all_lines_skip_unsectioned(h, t, m - 1);
        lemma_sec_lines_concat(h, t, m - 1);
        lemma_sec_lines_none(h, m - 1);
        assert(Seq::<Seq<char>>::empty() + sec_lines(t, m - 1) =~= sec_lines(t, m - 1));
    }
}

proof fn lemma_sec_lines_none(h: Seq<(int, Seq<char>)>, sec: int)
    requires
        sec >= 0,
        forall|i: int| 0 <= i < h.len() ==> (#[trigger] h[i]).0 < 0,
    ensures
        sec_lines(h, sec) == Seq::<Seq<char>>::empty(),
    decreases h.len(),
{
    if h.len() > 0 {
        assert forall|i: int| 0 <= i < h.drop_last().len() implies (#[trigger] h.drop_last()[i]).0 < 0 by {
            assert(h.drop_last()[i] == h[i]);
        }
        lemma_sec_lines_none(h.drop_last(), sec);
        assert(h[h.len() - 1].0 < 0);
        assert(sec_lines(h, sec) =~= Seq::<Seq<char>>::empty());
    }
}

proof fn lemma_texts_of_sec_tags(t: Seq<(int, Seq<char>)>, s: int)
    ensures
        texts(sec_tags(t, s)) == sec_lines(t, s),
    decreases t.len(),
{
    if t.len() > 0 {
        lemma_texts_of_sec_tags(t.drop_last(), s);
        assert(texts(sec_tags(t, s)) =~= sec_lines(t, s));
    }
}

/// The lines in section order are the canonical body's lines.
pub proof fn lemma_texts_of_ordered(t: Seq<(int, Seq<char>)>, n: int)
    ensures
        texts(ordered_tags(t, n)) == all_lines(t, n),
    decreases n,
{
    if n > 0 {
        lemma_texts_of_ordered(t, n - 1);
        lemma_texts_of_sec_tags(t, n - 1);
        assert(texts(ordered_tags(t, n)) =~= all_lines(t, n));
    }
}

/// The four header lines of the canonical text.
pub open spec fn header_lines(p: ParsedScenario) -> Seq<Seq<char>> {
    seq![
        "scenario \""@ + p.name@ + "\""@,
        "seed "@ + decimal(p.seed as nat),
        "duration "@ + duration_text(p.duration),
        "timestep "@ + duration_text(p.timestep),
    ]
}

/// The lines of the canonical text: the header, then the sections in order.
pub open spec fn canonical_lines(p: ParsedScenario) -> Seq<Seq<char>> {
    header_lines(p) + all_lines(tags(p.declarations@), section_count())
}

/// The canonical text is its lines, each ended by `\n`.
pub proof fn lemma_scenario_text_lines(p: ParsedScenario)
    ensures
        scenario_text(p) == joined(canonical_lines(p)),
{
    let h = header_lines(p);
    lemma_sections_text(p.declarations@, section_count());
    lemma_joined_concat(h, all_lines(tags(p.declarations@), section_count()));
    assert(h.drop_last().drop_last().drop_last().drop_last() =~= Seq::<Seq<char>>::empty());
    assert(h.drop_last().drop_last().drop_last().last() == h[0]);
    assert(h.drop_last().drop_last().last() == h[1]);
    assert(h.drop_last().last() == h[2]);
    assert(h.last() == h[3]);
    reveal_strlit("\"\n");
    reveal_strlit("\"");
    reveal_strlit("\n");
    let h3 = h.drop_last();
    let h2 = h3.drop_last();
    let h1 = h2.drop_last();
    let h0 = h1.drop_last();
    assert(joined(h0) == Seq::<char>::empty());
    assert(joined(h1) == joined(h0) + h[0] + seq!['\n']);
    assert(joined(h2) == joined(h1) + h[1] + seq!['\n']);
    assert(joined(h3) == joined(h2) + h[2] + seq!['\n']);
    assert(joined(h) == joined(h3) + h[3] + seq!['\n']);
    assert(joined(h) =~= h[0] + seq!['\n'] + h[1] + seq!['\n'] + h[2] + seq!['\n'] + h[3] + seq!['\n']);
    assert(scenario_text(p) =~= joined(h) + sections_text(p.declarations@, section_count()));
}

/// A scenario name the canonical header can quote: no quote, no `#`, no
/// line break.
pub open spec fn quotable(name: Seq<char>) -> bool {
    forall|i: int| 0 <= i < name.len() ==> #[trigger] name[i] != '"' && name[i] != '#' && name[i] != '\n'
}

/// The header lines are single lines that read back as their keyword and
/// value.
proof fn lemma_header_tokens(p: ParsedScenario)
    requires
        quotable(p.name@),
        canonical_word(duration_text(p.duration)),
        canonical_word(duration_text(p.timestep)),
    ensures
        forall|k: int| 0 <= k < 4 ==> single_line(#[trigger] header_lines(p)[k]),
        line_tokens(header_lines(p)[0]) == Ok::<Seq<Seq<char>>, Seq<char>>(seq!["scenario"@, p.name@]),
        line_tokens(header_lines(p)[1]) == Ok::<Seq<Seq<char>>, Seq<char>>(seq!["seed"@, decimal(p.seed as nat)]),
        line_tokens(header_lines(p)[2]) == Ok::<Seq<Seq<char>>, Seq<char>>(
            seq!["duration"@, duration_text(p.duration)],
        ),
        line_tokens(header_lines(p)[3]) == Ok::<Seq<Seq<char>>, Seq<char>>(
            seq!["timestep"@, duration_text(p.timestep)],
        ),
{
    let h = header_lines(p);
    let name = p.name@;
    lemma_header_words();
    lemma_decimal_word(p.seed as nat);
    assert(h[1] == "seed"@ + " "@ + decimal(p.seed as nat)) by {
        reveal_strlit("seed ");
        reveal_strlit("seed");
        reveal_strlit(" ");
        assert("seed "@ =~= "seed"@ + " "@);
    }
    assert(h[2] == "duration"@ + " "@ + duration_text(p.duration)) by {
        reveal_strlit("duration ");
        reveal_strlit("duration");
        reveal_strlit(" ");
        assert("duration "@ =~= "duration"@ + " "@);
    }
    assert(h[3] == "timestep"@ + " "@ + duration_text(p.timestep)) by {
        reveal_strlit("timestep ");
        reveal_strlit("timestep");
        reveal_strlit(" ");
        assert("timestep "@ =~= "timestep"@ + " "@);
    }
    lemma_keyword_value_line("seed"@, decimal(p.seed as nat));
    lemma_keyword_value_line("duration"@, duration_text(p.duration));
    lemma_keyword_value_line("timestep"@, duration_text(p.timestep));
    let w = "scenario"@;
    let line = w + seq![' ', '"'] + name + seq!['"'];
    assert(h[0] == line) by {
        reveal_strlit("scenario \"");
        reveal_strlit("scenario");
        reveal_strlit("\"");
        assert("scenario \""@ =~= w + seq![' ', '"']);
    }
    assert(plain_word(w));
    lemma_tokens_of_word_then_quoted(w, name);
    assert forall|i: int| 0 <= i < line.len() implies #[trigger] line[i] != '#' && line[i] != '\n' by {
        if i < w.len() {
            assert(line[i] == w[i]);
        } else if i < w.len() + 2 {
        } else if i < w.len() + 2 + name.len() {
            assert(line[i] == name[i - w.len() - 2]);
        } else {
        }
    }
    lemma_before_comment_without_hash(line);
    assert(line.last() == '"');
}

/// The declarations of one section, in order.
pub open spec fn sec_decls(decls: Seq<Declaration>, sec: int) -> Seq<Declaration>
    decreases decls.len(),
{
    if decls.len() == 0 {
        Seq::empty()
    } else {
        sec_decls(decls.drop_last(), sec) + if section_of(decls.last()) == sec {
            seq![decls.last()]
        } else {
            Seq::empty()
        }
    }
}

/// The declarations of sections `0..n`, section by section: the order of
/// the canonical text.
pub open spec fn ordered_decls(decls: Seq<Declaration>, n: int) -> Seq<Declaration>
    decreases n,
{
    if n <= 0 {
        Seq::empty()
    } else {
        ordered_decls(decls, n - 1) + sec_decls(decls, n - 1)
    }
}

proof fn lemma_tags_concat(a: Seq<Declaration>, b: Seq<Declaration>)
    ensures
        tags(a + b) == tags(a) + tags(b),
{
    assert(tags(a + b) =~= tags(a) + tags(b));
}

proof fn lemma_tags_of_sec_decls(decls: Seq<Declaration>, sec: int)
    ensures
        tags(sec_decls(decls, sec)) == sec_tags(tags(decls), sec),
        forall|j: int| 0 <= j < sec_decls(decls, sec).len() ==> section_of(#[trigger] sec_decls(decls, sec)[j]) == sec
            && decls.contains(sec_decls(decls, sec)[j]),
    decreases decls.len(),
{
    if decls.len() > 0 {
        let rest = decls.drop_last();
        lemma_tags_of_sec_decls(rest, sec);
        let tail = if section_of(decls.last()) == sec {
            seq![decls.last()]
        } else {
            Seq::<Declaration>::empty()
        };
        lemma_tags_concat(sec_decls(rest, sec), tail);
        assert(tags(decls).drop_last() =~= tags(rest));
        assert(tags(decls).last() == (section_of(decls.last()), declaration_text(decls.last())));
        assert(tags(tail) =~= if tags(decls).last().0 == sec {
            seq![tags(decls).last()]
        } else {
            Seq::<(int, Seq<char>)>::empty()
        });
        let all = sec_decls(decls, sec);
        assert forall|j: int| 0 <= j < all.len() implies section_of(#[trigger] all[j]) == sec && decls.contains(all[j]) by {
            if j < sec_decls(rest, sec).len() {
                assert(all[j] == sec_decls(rest, sec)[j]);
                assert(rest.contains(all[j]));
                let k = choose|k: int| 0 <= k < rest.len() && rest[k] == all[j];
                assert(decls[k] == rest[k]);
            } else {
                assert(all[j] == decls.last());
                assert(decls[decls.len() - 1] == decls.last());
            }
        }
    }
}

/// The declarations in canonical order carry the lines in canonical order,
/// and each is a declaration of the scenario that has a section.
pub proof fn lemma_ordered_decls(decls: Seq<Declaration>, n: int)
    ensures
        tags(ordered_decls(decls, n)) == ordered_tags(tags(decls), n),
        forall|j: int| 0 <= j < ordered_decls(decls, n).len() ==> 0 <= section_of(
            #[trigger] ordered_decls(decls, n)[j],
        ) && decls.contains(ordered_decls(decls, n)[j]),
    decreases n,
{
    if n > 0 {
        lemma_ordered_decls(decls, n - 1);
        lemma_tags_of_sec_decls(decls, n - 1);
        let a = ordered_decls(decls, n - 1);
        let b = sec_decls(decls, n - 1);
        lemma_tags_concat(a, b);
        assert forall|j: int| 0 <= j < (a + b).len() implies 0 <= section_of(#[trigger] (a + b)[j]) && decls.contains((a + b)[j]) by {
            if j < a.len() {
                assert((a + b)[j] == a[j]);
            } else {
                assert((a + b)[j] == b[j - a.len()]);
            }
        }
    }
}

/// Whether the declaration tokens `t` are accepted after the declarations `d`.
pub open spec fn accepted_after(d: Seq<Seq<Seq<char>>>, t: Seq<Seq<char>>) -> bool {
    declaration_accepted(t, declares(d, "scenario"@), declares(d, "seed"@), declares(d, "duration"@), declares(d, "timestep"@))
}

/// Lines that each read back as nonempty tokens, each accepted after those
/// before it, hold exactly those declarations and none of them is rejected.
proof fn lemma_lines_accepted(lines: Seq<Seq<char>>, toks: Seq<Seq<Seq<char>>>)
    requires
        lines.len() == toks.len(),
        forall|k: int| 0 <= k < lines.len() ==> line_tokens(#[trigger] lines[k]) == Ok::<Seq<Seq<char>>, Seq<char>>(toks[k]),
        forall|k: int| 0 <= k < toks.len() ==> (#[trigger] toks[k]).len() > 0,
        forall|k: int| 0 <= k < toks.len() ==> accepted_after(toks.take(k), #[trigger] toks[k]),
    ensures
        declaration_lines(lines) == toks,
        first_rejected(lines) is None,
    decreases lines.len(),
{
    if lines.len() == 0 {
        assert(toks =~= Seq::<Seq<Seq<char>>>::empty());
    } else {
        let l0 = lines.drop_last();
        let t0 = toks.drop_last();
        assert forall|k: int| 0 <= k < l0.len() implies line_tokens(#[trigger] l0[k]) == Ok::<Seq<Seq<char>>, Seq<char>>(t0[k]) by {
            assert(l0[k] == lines[k]);
            assert(t0[k] == toks[k]);
        }
        assert forall|k: int| 0 <= k < t0.len() implies (#[trigger] t0[k]).len() > 0 by {
            assert(t0[k] == toks[k]);
        }
        assert forall|k: int| 0 <= k < t0.len() implies accepted_after(t0.take(k), #[trigger] t0[k]) by {
            assert(t0[k] == toks[k]);
            assert(t0.take(k) =~= toks.take(k));
            assert(accepted_after(toks.take(k), toks[k]));
        }
        lemma_lines_accepted(l0, t0);
        let n = lines.len() - 1;
        assert(lines.last() == lines[n]);
        assert(line_tokens(lines[n]) == Ok::<Seq<Seq<char>>, Seq<char>>(toks[n]));
        assert(toks[n].len() > 0);
        assert(accepted_after(toks.take(n), toks[n]));
        assert(toks.take(n) =~= t0);
        assert(t0.push(toks[n]) =~= toks);
        assert(!line_rejected(l0, lines.last()));
    }
}

/// In a source without a rejected line, each declaration is accepted after
/// those before it.
pub proof fn lemma_declarations_accepted(lines: Seq<Seq<char>>)
    requires
        first_rejected(lines) is None,
    ensures
        forall|i: int| 0 <= i < declaration_lines(lines).len() ==> accepted_after(
            declaration_lines(lines).take(i),
            #[trigger] declaration_lines(lines)[i],
        ) && declaration_lines(lines)[i].len() > 0,
    decreases lines.len(),
{
    if lines.len() > 0 {
        let l0 = lines.drop_last();
        lemma_declarations_accepted(l0);
        let d0 = declaration_lines(l0);
        let d = declaration_lines(lines);
        assert(!line_rejected(l0, lines.last()));
        assert forall|i: int| 0 <= i < d.len() implies accepted_after(d.take(i), #[trigger] d[i]) && d[i].len() > 0 by {
            if i < d0.len() {
                assert(d[i] == d0[i]);
                assert(d.take(i) =~= d0.take(i));
                assert(accepted_after(d0.take(i), d0[i]));
            } else {
                assert(d.take(i) =~= d0);
            }
        }
    }
}

/// A declaration read from a line that starts with a header keyword has no
/// section.
proof fn lemma_header_declaration(e: Declaration, t: Seq<Seq<char>>)
    requires
        declaration_is(e, t),
        t[0] == "scenario"@ || t[0] == "seed"@ || t[0] == "duration"@ || t[0] == "timestep"@,
    ensures
        section_of(e) < 0,
{
    lemma_keyword_letters();
    match e {
        Declaration::Connector(c) => {
            assert(t[0] == "stair"@ || t[0] == "ramp"@ || t[0] == "escalator"@ || t[0] == "lift"@);
        },
        _ => {},
    }
}

/// The source condition under which canonical text reads back: every token
/// of every declaration but the scenario's name, which the header quotes, is
/// a canonical word.
pub open spec fn canonical_source(d: Seq<Seq<Seq<char>>>) -> bool {
    forall|i: int| 0 <= i < d.len() && (#[trigger] d[i])[0] != "scenario"@ ==> canonical_tokens(d[i])
}

/// The tokens the canonical lines of the declarations in canonical order
/// read back as.
pub open spec fn body_tokens(o: Seq<Declaration>) -> Seq<Seq<Seq<char>>> {
    Seq::new(o.len(), |j: int| choose|u: Seq<Seq<char>>| reads_back_as(o[j], u))
}

/// The tokens of the header lines.
pub open spec fn header_tokens(p: ParsedScenario) -> Seq<Seq<Seq<char>>> {
    seq![
        seq!["scenario"@, p.name@],
        seq!["seed"@, decimal(p.seed as nat)],
        seq!["duration"@, duration_text(p.duration)],
        seq!["timestep"@, duration_text(p.timestep)],
    ]
}

/// A token of a declaration of a source holds no quote, no `#` and no
/// line break.
proof fn lemma_declaration_token_chars(lines: Seq<Seq<char>>, i: int, j: int)
    requires
        forall|k: int| 0 <= k < lines.len() ==> free_of(#[trigger] lines[k], '\n'),
        0 <= i < declaration_lines(lines).len(),
        0 <= j < declaration_lines(lines)[i].len(),
    ensures
        token_chars(declaration_lines(lines)[i][j]),
{
    let d = declaration_lines(lines);
    lemma_declaration_lines_from_lines(lines);
    assert(d[i] == declaration_lines(lines)[i]);
    assert(exists|k: int| 0 <= k < lines.len() && line_tokens(#[trigger] lines[k]) == Ok::<Seq<Seq<char>>, Seq<char>>(d[i]));
    let k0 = choose|k: int| 0 <= k < lines.len() && line_tokens(#[trigger] lines[k]) == Ok::<Seq<Seq<char>>, Seq<char>>(d[i]);
    assert(free_of(lines[k0], '\n'));
    lemma_line_tokens_chars(lines[k0]);
    assert(line_tokens(lines[k0]) == Ok::<Seq<Seq<char>>, Seq<char>>(d[i]));
    let t = line_tokens(lines[k0])->Ok_0;
    assert(t == d[i]);
    assert(token_chars(t[j]));
}

/// What the canonical text needs of a parsed source: a quotable name,
/// canonical durations, and a line that reads back for each declaration in
/// canonical order.
#[verifier::spinoff_prover]
#[verifier::rlimit(50)]
proof fn lemma_source_facts(lines: Seq<Seq<char>>, p: ParsedScenario)
    requires
        forall|k: int| 0 <= k < lines.len() ==> free_of(#[trigger] lines[k], '\n'),
        source_accepted(lines),
        parsed_is(p, declaration_lines(lines)),
        canonical_source(declaration_lines(lines)),
    ensures
        quotable(p.name@),
        canonical_word(duration_text(p.duration)),
        canonical_word(duration_text(p.timestep)),
        duration_ok(duration_text(p.duration)),
        duration_ok(duration_text(p.timestep)),
        forall|j: int| 0 <= j < ordered_decls(p.declarations@, section_count()).len() ==> reads_back_as(
            #[trigger] ordered_decls(p.declarations@, section_count())[j],
            body_tokens(ordered_decls(p.declarations@, section_count()))[j],
        ),
{
    let d = declaration_lines(lines);
    let decls = p.declarations@;
    lemma_keyword_letters();
    lemma_declarations_accepted(lines);
    // The header declarations.
    let i0 = choose|i: int| 0 <= i < d.len() && d[i].len() > 0 && #[trigger] d[i][0] == "scenario"@;
    assert(p.name@ == d[i0][1]);
    assert(accepted_after(d.take(i0), d[i0]));
    assert(d[i0].len() == 2);
    lemma_declaration_token_chars(lines, i0, 1);
    assert forall|j: int| 0 <= j < p.name@.len() implies #[trigger] p.name@[j] != '"' && p.name@[j] != '#' && p.name@[j] != '\n' by {
        assert(token_char(d[i0][1][j]));
    }
    let i2 = choose|i: int| 0 <= i < d.len() && d[i].len() > 0 && #[trigger] d[i][0] == "duration"@;
    assert(accepted_after(d.take(i2), d[i2]));
    assert(d[i2].len() == 2);
    assert(canonical_tokens(d[i2]));
    assert(canonical_word(d[i2][1]));
    lemma_duration_token(p.duration, d[i2][1]);
    let i3 = choose|i: int| 0 <= i < d.len() && d[i].len() > 0 && #[trigger] d[i][0] == "timestep"@;
    assert(accepted_after(d.take(i3), d[i3]));
    assert(d[i3].len() == 2);
    assert(canonical_tokens(d[i3]));
    assert(canonical_word(d[i3][1]));
    lemma_duration_token(p.timestep, d[i3][1]);
    // Each declaration in canonical order reads back.
    let o = ordered_decls(decls, section_count());
    lemma_ordered_decls(decls, section_count());
    assert forall|j: int| 0 <= j < o.len() implies reads_back_as(#[trigger] o[j], body_tokens(o)[j]) by {
        assert(decls.contains(o[j]));
        let i = choose|i: int| 0 <= i < decls.len() && decls[i] == o[j];
        assert(section_of(decls[i]) >= 0);
        assert(declaration_is(decls[i], d[i]));
        assert(accepted_after(d.take(i), d[i]));
        assert(d[i][0] != "scenario"@);
        assert(canonical_tokens(d[i]));
        lemma_declaration_reads_back(
            decls[i],
            d[i],
            declares(d.take(i), "scenario"@),
            declares(d.take(i), "seed"@),
            declares(d.take(i), "duration"@),
            declares(d.take(i), "timestep"@),
        );
        let u = choose|u: Seq<Seq<char>>| reads_back_as(o[j], u);
        assert(body_tokens(o)[j] == u);
    }
}

/// The canonical text's lines are the header and body lines; each reads
/// back as its tokens, none is rejected, and the text is accepted.
#[verifier::spinoff_prover]
#[verifier::rlimit(50)]
proof fn lemma_canonical_lines_read(p: ParsedScenario)
    requires
        quotable(p.name@),
        canonical_word(duration_text(p.duration)),
        canonical_word(duration_text(p.timestep)),
        duration_ok(duration_text(p.duration)),
        duration_ok(duration_text(p.timestep)),
        forall|j: int| 0 <= j < ordered_decls(p.declarations@, section_count()).len() ==> reads_back_as(
            #[trigger] ordered_decls(p.declarations@, section_count())[j],
            body_tokens(ordered_decls(p.declarations@, section_count()))[j],
        ),
    ensures
        source_lines(scenario_text(p)) == canonical_lines(p),
        declaration_lines(canonical_lines(p)) == header_tokens(p) + body_tokens(ordered_decls(p.declarations@, section_count())),
        source_accepted(canonical_lines(p)),
{
    let decls = p.declarations@;
    let o = ordered_decls(decls, section_count());
    let u = body_tokens(o);
    let h = header_lines(p);
    let ht = header_tokens(p);
    let lines = canonical_lines(p);
    let toks = ht + u;
    lemma_keyword_letters();
    lemma_header_tokens(p);
    lemma_ordered_decls(decls, section_count());
    lemma_texts_of_ordered(tags(decls), section_count());
    let body = all_lines(tags(decls), section_count());
    assert(body == texts(tags(o)));
    assert(lines.len() == toks.len());
    assert forall|k: int| 0 <= k < lines.len() implies single_line(#[trigger] lines[k]) && line_tokens(lines[k])
        == Ok::<Seq<Seq<char>>, Seq<char>>(toks[k]) && toks[k].len() > 0 by {
        if k < 4 {
            assert(lines[k] == h[k]);
            assert(toks[k] == ht[k]);
        } else {
            assert(lines[k] == body[k - 4]);
            assert(body[k - 4] == declaration_text(o[k - 4]));
            assert(toks[k] == u[k - 4]);
            assert(reads_back_as(o[k - 4], u[k - 4]));
        }
    }
    lemma_source_lines_of_joined(lines);
    lemma_scenario_text_lines(p);
    lemma_decimal_reads_back(p.seed as nat);
    assert forall|k: int| 0 <= k < toks.len() implies accepted_after(toks.take(k), #[trigger] toks[k]) by {
        let before = toks.take(k);
        if k == 0 {
            assert(!declares(before, "scenario"@));
            assert(!declares(before, "seed"@));
            assert(!declares(before, "duration"@));
            assert(!declares(before, "timestep"@));
        } else if k < 4 {
            assert forall|i: int| 0 <= i < before.len() implies (#[trigger] before[i])[0] != toks[k][0] by {
                assert(before[i] == ht[i]);
            }
            if k == 1 {
                assert(!declares(before, "seed"@));
            } else if k == 2 {
                assert(!declares(before, "duration"@));
            } else {
                assert(!declares(before, "timestep"@));
            }
        } else {
            assert(before[0] == ht[0] && before[1] == ht[1] && before[2] == ht[2] && before[3] == ht[3]);
            assert(before[0][0] == "scenario"@);
            assert(before[1][0] == "seed"@);
            assert(before[2][0] == "duration"@);
            assert(before[3][0] == "timestep"@);
            assert(declares(before, "scenario"@));
            assert(declares(before, "seed"@));
            assert(declares(before, "duration"@));
            assert(declares(before, "timestep"@));
            assert(toks[k] == u[k - 4]);
            assert(reads_back_as(o[k - 4], u[k - 4]));
        }
    }
    lemma_lines_accepted(lines, toks);
    assert(toks[0][0] == "scenario"@);
    assert(toks[1][0] == "seed"@);
    assert(toks[2][0] == "duration"@);
    assert(toks[3][0] == "timestep"@);
}

/// Whatever the canonical lines parse to is written as the same text.
#[verifier::spinoff_prover]
#[verifier::rlimit(50)]
proof fn lemma_reparsed_text(p: ParsedScenario, q: ParsedScenario)
    requires
        forall|j: int| 0 <= j < ordered_decls(p.declarations@, section_count()).len() ==> reads_back_as(
            #[trigger] ordered_decls(p.declarations@, section_count())[j],
            body_tokens(ordered_decls(p.declarations@, section_count()))[j],
        ),
        parsed_is(q, header_tokens(p) + body_tokens(ordered_decls(p.declarations@, section_count()))),
    ensures
        scenario_text(q) == scenario_text(p),
        q.name@ == p.name@,
        q.seed == p.seed,
        duration_text(q.duration) == duration_text(p.duration),
        duration_text(q.timestep) == duration_text(p.timestep),
        tags(q.declarations@.skip(4)) == tags(ordered_decls(p.declarations@, section_count())),
{
    let decls = p.declarations@;
    let o = ordered_decls(decls, section_count());
    let u = body_tokens(o);
    let ht = header_tokens(p);
    let toks = ht + u;
    let qd = q.declarations@;
    lemma_keyword_letters();
    // The header.
    assert(toks[0] == ht[0] && toks[1] == ht[1] && toks[2] == ht[2] && toks[3] == ht[3]);
    assert(toks[0][0] == "scenario"@);
    assert(q.name@ == p.name@);
    assert(toks[1][0] == "seed"@);
    lemma_decimal_reads_back(p.seed as nat);
    assert(q.seed == p.seed);
    assert(toks[2][0] == "duration"@);
    lemma_duration_token(q.duration, toks[2][1]);
    assert(toks[3][0] == "timestep"@);
    lemma_duration_token(q.timestep, toks[3][1]);
    assert(header_lines(q) =~= header_lines(p));
    // The body.
    let head = qd.take(4);
    let rest = qd.skip(4);
    assert(qd =~= head + rest);
    lemma_tags_concat(head, rest);
    assert forall|i: int| 0 <= i < tags(head).len() implies (#[trigger] tags(head)[i]).0 < 0 by {
        assert(head[i] == qd[i]);
        assert(declaration_is(qd[i], toks[i]));
        assert(toks[i] == ht[i]);
        lemma_header_declaration(qd[i], toks[i]);
    }
    lemma_ordered_decls(decls, section_count());
    assert forall|j: int| 0 <= j < rest.len() implies #[trigger] tags(rest)[j] == tags(o)[j] by {
        assert(rest[j] == qd[j + 4]);
        assert(declaration_is(qd[j + 4], toks[j + 4]));
        assert(toks[j + 4] == u[j]);
        assert(reads_back_as(o[j], u[j]));
    }
    assert(tags(rest) =~= tags(o));
    assert(rest == qd.skip(4));
    lemma_all_lines_skip_unsectioned(tags(head), tags(rest), section_count());
    lemma_all_lines_of_ordered(tags(decls), section_count(), section_count());
    assert(canonical_lines(q) == canonical_lines(p));
    lemma_scenario_text_lines(p);
    lemma_scenario_text_lines(q);
}

/// Formatting is stable: when a source parses and its tokens are canonical
/// words (the scenario name aside), the canonical text of what it parses to
/// parses too, and whatever that text parses to is written as the same text.
pub proof fn lemma_canonical_text_is_stable(src: Seq<char>, p: ParsedScenario)
    requires
        source_accepted(source_lines(src)),
        parsed_is(p, declaration_lines(source_lines(src))),
        canonical_source(declaration_lines(source_lines(src))),
    ensures
        source_accepted(source_lines(scenario_text(p))),
        forall|q: ParsedScenario| #[trigger] parsed_is(q, declaration_lines(source_lines(scenario_text(p)))) ==> scenario_text(q)
            == scenario_text(p),
{
    lemma_source_lines_free_of_newline(src);
    lemma_source_facts(source_lines(src), p);
    lemma_canonical_lines_read(p);
    assert forall|q: ParsedScenario| #[trigger] parsed_is(q, declaration_lines(source_lines(scenario_text(p)))) implies scenario_text(q)
        == scenario_text(p) by {
        lemma_reparsed_text(p, q);
    }
}

/// Parsing the canonical text gives the scenario back: the same name and
/// seed, the duration and timestep as written, and after those four the
/// scenario's declarations in canonical order, each in the same section and
/// written as the same line.
pub proof fn lemma_canonical_text_reads_back(src: Seq<char>, p: ParsedScenario)
    requires
        source_accepted(source_lines(src)),
        parsed_is(p, declaration_lines(source_lines(src))),
        canonical_source(declaration_lines(source_lines(src))),
    ensures
        forall|q: ParsedScenario| #[trigger] parsed_is(q, declaration_lines(source_lines(scenario_text(p)))) ==> {
            &&& q.name@ == p.name@
            &&& q.seed == p.seed
            &&& duration_text(q.duration) == duration_text(p.duration)
            &&& duration_text(q.timestep) == duration_text(p.timestep)
            &&& tags(q.declarations@.skip(4)) == tags(ordered_decls(p.declarations@, section_count()))
        },
{
    lemma_source_lines_free_of_newline(src);
    lemma_source_facts(source_lines(src), p);
    lemma_canonical_lines_read(p);
    assert forall|q: ParsedScenario| #[trigger] parsed_is(q, declaration_lines(source_lines(scenario_text(p)))) implies {
        &&& q.name@ == p.name@
        &&& q.seed == p.seed
        &&& duration_text(q.duration) == duration_text(p.duration)
        &&& duration_text(q.timestep) == duration_text(p.timestep)
        &&& tags(q.declarations@.skip(4)) == tags(ordered_decls(p.declarations@, section_count()))
    } by {
        lemma_reparsed_text(p, q);
    }
}

/// No character of `s` is `c`.
pub open spec fn free_of(s: Seq<char>, c: char) -> bool {
    forall|i: int| 0 <= i < s.len() ==> #[trigger] s[i] != c
}

proof fn lemma_pieces_free_of_newline(s: Seq<char>)
    ensures
        forall|k: int| 0 <= k < newline_pieces(s).len() ==> free_of(#[trigger] newline_pieces(s)[k], '\n'),
    decreases s.len(),
{
    if s.len() > 0 {
        lemma_pieces_free_of_newline(s.drop_last());
        crate::lexer::lemma_newline_pieces_len(s.drop_last());
        let p = newline_pieces(s.drop_last());
        if s.last() != '\n' {
            let last = p.last().push(s.last());
            assert(free_of(p[p.len() - 1], '\n'));
            assert forall|i: int| 0 <= i < last.len() implies #[trigger] last[i] != '\n' by {
                if i < p.last().len() {
                    assert(last[i] == p.last()[i]);
                }
            }
            assert forall|k: int| 0 <= k < newline_pieces(s).len() implies free_of(#[trigger] newline_pieces(s)[k], '\n') by {
                if k < p.len() - 1 {
                    assert(newline_pieces(s)[k] == p[k]);
                }
            }
        } else {
            assert forall|k: int| 0 <= k < newline_pieces(s).len() implies free_of(#[trigger] newline_pieces(s)[k], '\n') by {
                if k < p.len() {
                    assert(newline_pieces(s)[k] == p[k]);
                }
            }
        }
    }
}

/// No line of a text holds a line break.
pub proof fn lemma_source_lines_free_of_newline(s: Seq<char>)
    ensures
        forall|k: int| 0 <= k < source_lines(s).len() ==> free_of(#[trigger] source_lines(s)[k], '\n'),
{
    lemma_pieces_free_of_newline(s);
    let p = newline_pieces(s);
    assert forall|k: int| 0 <= k < source_lines(s).len() implies free_of(#[trigger] source_lines(s)[k], '\n') by {
        assert(free_of(p[k], '\n'));
        if k < p.len() - 1 && p[k].len() > 0 && p[k].last() == '\r' {
            assert forall|i: int| 0 <= i < p[k].drop_last().len() implies #[trigger] p[k].drop_last()[i] != '\n' by {
                assert(p[k].drop_last()[i] == p[k][i]);
            }
        }
    }
}

/// What comes before a comment holds no `#` and only characters of the line.
proof fn lemma_before_comment_chars(l: Seq<char>)
    ensures
        before_comment(l).len() <= l.len(),
        forall|i: int| 0 <= i < before_comment(l).len() ==> #[trigger] before_comment(l)[i] == l[i] && l[i] != '#',
    decreases l.len(),
{
    if l.len() > 0 {
        lemma_before_comment_chars(l.drop_last());
        let b = before_comment(l.drop_last());
        assert forall|i: int| 0 <= i < b.len() implies b[i] == l[i] by {
            assert(l.drop_last()[i] == l[i]);
        }
        if b.len() < l.len() - 1 {
        } else if l.last() == '#' {
            assert(b =~= l.drop_last());
        } else {
            assert(b =~= l.drop_last());
            assert forall|i: int| 0 <= i < l.len() implies #[trigger] l[i] != '#' by {
                if i < b.len() {
                    assert(b[i] == l[i]);
                }
            }
        }
    }
}

/// The characters the tokenizer keeps in its tokens.
pub open spec fn token_char(c: char) -> bool {
    c != '"' && c != '#' && c != '\n'
}

pub open spec fn token_chars(t: Seq<char>) -> bool {
    forall|i: int| 0 <= i < t.len() ==> token_char(#[trigger] t[i])
}

proof fn lemma_lex_token_chars(x: Seq<char>)
    requires
        forall|i: int| 0 <= i < x.len() ==> #[trigger] x[i] != '#' && x[i] != '\n',
    ensures
        forall|k: int| 0 <= k < lex(x).0.len() ==> token_chars(#[trigger] lex(x).0[k]),
        token_chars(lex(x).1),
    decreases x.len(),
{
    if x.len() > 0 {
        let y = x.drop_last();
        assert forall|i: int| 0 <= i < y.len() implies #[trigger] y[i] != '#' && y[i] != '\n' by {
            assert(y[i] == x[i]);
        }
        lemma_lex_token_chars(y);
        let st = lex(y);
        let c = x.last();
        assert(x[x.len() - 1] == c);
        let pushed = st.1.push(c);
        assert(x[x.len() - 1] != '#' && x[x.len() - 1] != '\n');
        if c != '"' {
            assert forall|i: int| 0 <= i < pushed.len() implies token_char(#[trigger] pushed[i]) by {
                if i < st.1.len() {
                    assert(pushed[i] == st.1[i]);
                }
            }
        }
        let done = st.0.push(st.1);
        assert forall|k: int| 0 <= k < done.len() implies token_chars(#[trigger] done[k]) by {
            if k < st.0.len() {
                assert(done[k] == st.0[k]);
            }
        }
    }
}

/// The tokens of a line hold no quote, no `#` and no line break.
pub proof fn lemma_line_tokens_chars(l: Seq<char>)
    requires
        free_of(l, '\n'),
    ensures
        line_tokens(l) matches Ok(t) ==> forall|k: int| 0 <= k < t.len() ==> token_chars(#[trigger] t[k]),
{
    let b = before_comment(l);
    lemma_before_comment_chars(l);
    assert forall|i: int| 0 <= i < b.len() implies #[trigger] b[i] != '#' && b[i] != '\n' by {
        assert(b[i] == l[i]);
    }
    lemma_lex_token_chars(b);
    let st = lex(b);
    let f = crate::lexer::flush(st);
    assert forall|k: int| 0 <= k < f.0.len() implies token_chars(#[trigger] f.0[k]) by {
        if k < st.0.len() {
            assert(f.0[k] == st.0[k] || st.1.len() == 0);
        }
    }
}

/// Each declaration of a source is the tokens of one of its lines.
pub proof fn lemma_declaration_lines_from_lines(lines: Seq<Seq<char>>)
    ensures
        forall|i: int|
            #![trigger declaration_lines(lines)[i]]
            0 <= i < declaration_lines(lines).len() ==> exists|k: int|
                0 <= k < lines.len() && line_tokens(#[trigger] lines[k]) == Ok::<Seq<Seq<char>>, Seq<char>>(
                    declaration_lines(lines)[i],
                ),
    decreases lines.len(),
{
    if lines.len() > 0 {
        let l0 = lines.drop_last();
        lemma_declaration_lines_from_lines(l0);
        let d0 = declaration_lines(l0);
        let d = declaration_lines(lines);
        assert forall|i: int| #![trigger d[i]] 0 <= i < d.len() implies exists|k: int|
            0 <= k < lines.len() && line_tokens(#[trigger] lines[k]) == Ok::<Seq<Seq<char>>, Seq<char>>(d[i]) by {
            if i < d0.len() {
                assert(d[i] == d0[i]);
                let k = choose|k: int| 0 <= k < l0.len() && line_tokens(#[trigger] l0[k]) == Ok::<Seq<Seq<char>>, Seq<char>>(d0[i]);
                assert(lines[k] == l0[k]);
            } else {
                assert(lines[lines.len() - 1] == lines.last());
            }
        }
    }
}

} // verus!
