//! Line splitting, comment removal and tokenization of scenario source.

use vstd::prelude::*;
use crate::text::{chars_of, is_white_space, white_space};

verus! {

/// The views of a list of strings.
pub open spec fn string_views(v: Seq<String>) -> Seq<Seq<char>> {
    v.map_values(|s: String| s@)
}

/// The pieces of `s` between `\n` characters (always at least one).
pub open spec fn newline_pieces(s: Seq<char>) -> Seq<Seq<char>>
    decreases s.len(),
{
    if s.len() == 0 {
        seq![Seq::empty()]
    } else {
        let p = newline_pieces(s.drop_last());
        if s.last() == '\n' {
            p.push(Seq::empty())
        } else {
            p.update(p.len() - 1, p.last().push(s.last()))
        }
    }
}

pub proof fn lemma_newline_pieces_len(s: Seq<char>)
    ensures
        newline_pieces(s).len() >= 1,
    decreases s.len(),
{
    if s.len() > 0 {
        lemma_newline_pieces_len(s.drop_last());
    }
}

/// A line ended by `\n` loses one trailing `\r`.
pub open spec fn strip_carriage_return(l: Seq<char>) -> Seq<char> {
    if l.len() > 0 && l.last() == '\r' {
        l.drop_last()
    } else {
        l
    }
}

/// The lines of a text as `str::lines` yields them: split at `\n`, a final
/// line ending is optional, and `\r\n` also ends a line.
pub open spec fn source_lines(s: Seq<char>) -> Seq<Seq<char>> {
    let p = newline_pieces(s);
    let n = if s.len() == 0 || s.last() == '\n' {
        p.len() - 1
    } else {
        p.len() as int
    };
    Seq::new(
        n as nat,
        |k: int|
            if k < p.len() - 1 {
                strip_carriage_return(p[k])
            } else {
                p[k]
            },
    )
}

/// The part of a line before its first `#`.
pub open spec fn before_comment(l: Seq<char>) -> Seq<char>
    decreases l.len(),
{
    if l.len() == 0 {
        l
    } else if before_comment(l.drop_last()).len() < l.len() - 1 {
        before_comment(l.drop_last())
    } else if l.last() == '#' {
        l.drop_last()
    } else {
        l
    }
}

/// Tokenizer state after a prefix: completed tokens, the pending token,
/// whether a quote is open, and whether a quote began inside a token.
pub type LexState = (Seq<Seq<char>>, Seq<char>, bool, bool);

pub open spec fn is_delimiter(c: char) -> bool {
    c == '(' || c == ')' || c == ',' || is_white_space(c)
}

pub open spec fn flush(st: LexState) -> LexState {
    if st.1.len() > 0 {
        (st.0.push(st.1), Seq::empty(), st.2, st.3)
    } else {
        st
    }
}

pub open spec fn lex_step(st: LexState, c: char) -> LexState {
    if st.3 {
        st
    } else if c == '"' {
        if st.2 {
            (st.0.push(st.1), Seq::empty(), false, false)
        } else if st.1.len() > 0 {
            (st.0, st.1, st.2, true)
        } else {
            (st.0, st.1, true, false)
        }
    } else if !st.2 && is_delimiter(c) {
        flush(st)
    } else {
        (st.0, st.1.push(c), st.2, false)
    }
}

pub open spec fn lex(s: Seq<char>) -> LexState
    decreases s.len(),
{
    if s.len() == 0 {
        (Seq::empty(), Seq::empty(), false, false)
    } else {
        lex_step(lex(s.drop_last()), s.last())
    }
}

/// The tokens of one line: words split at whitespace, parentheses and commas;
/// a double-quoted string is one token, which may be empty.
pub open spec fn tokens_of(s: Seq<char>) -> Result<Seq<Seq<char>>, Seq<char>> {
    let st = lex(s);
    if st.3 {
        Err("a quote must begin at a token boundary"@)
    } else if st.2 {
        Err("unterminated quoted string"@)
    } else {
        Ok(flush(st).0)
    }
}

/// Split a source text into its lines, as `str::lines` does.
pub fn split_lines(source: &str) -> (r: Vec<Vec<char>>)
    ensures
        r@.len() == source_lines(source@).len(),
        forall|k: int| 0 <= k < r@.len() ==> (#[trigger] r@[k])@ == source_lines(source@)[k],
{
    let s = chars_of(source);
    let ghost src = source@;
    let mut pieces: Vec<Vec<char>> = Vec::new();
    let mut current: Vec<char> = Vec::new();
    let mut i: usize = 0;
    while i < s.len()
        invariant
            s@ == src,
            i <= s.len(),
            pieces@.len() + 1 == newline_pieces(src.take(i as int)).len(),
            forall|k: int|
                0 <= k < pieces@.len() ==> (#[trigger] pieces@[k])@ == newline_pieces(
                    src.take(i as int),
                )[k],
            current@ == newline_pieces(src.take(i as int)).last(),
        decreases s.len() - i,
    {
        proof {
            assert(src.take(i + 1).drop_last() =~= src.take(i as int));
            lemma_newline_pieces_len(src.take(i as int));
        }
        let c = s[i];
        if c == '\n' {
            let done = current;
            pieces.push(done);
            current = Vec::new();
        } else {
            current.push(c);
        }
        i += 1;
    }
    proof {
        assert(src.take(s.len() as int) =~= src);
        lemma_newline_pieces_len(src);
    }
    let ghost p = newline_pieces(src);
    // The final piece is a line unless the text is empty or ends with `\n`.
    let ends_open = s.len() > 0 && s[s.len() - 1] != '\n';
    let mut lines: Vec<Vec<char>> = Vec::new();
    let mut k: usize = 0;
    while k < pieces.len()
        invariant
            s@ == src,
            p == newline_pieces(src),
            pieces@.len() + 1 == p.len(),
            forall|q: int| 0 <= q < pieces@.len() ==> (#[trigger] pieces@[q])@ == p[q],
            k <= pieces@.len(),
            lines@.len() == k,
            forall|q: int|
                0 <= q < k ==> (#[trigger] lines@[q])@ == strip_carriage_return(p[q]),
        decreases pieces@.len() - k,
    {
        let mut line = pieces[k].clone();
        let n = line.len();
        if n > 0 && line[n - 1] == '\r' {
            line.pop();
            proof {
                assert(line@ =~= strip_carriage_return(p[k as int]));
            }
        }
        lines.push(line);
        k += 1;
    }
    if ends_open {
        lines.push(current);
    }
    proof {
        let expected = source_lines(src);
        assert(lines@.len() == expected.len());
        assert forall|q: int| 0 <= q < lines@.len() implies (#[trigger] lines@[q])@ == expected[q] by {
        }
    }
    lines
}

/// The prefix of `line` before its first `#`.
pub fn strip_comment(line: &Vec<char>) -> (r: Vec<char>)
    ensures
        r@ == before_comment(line@),
{
    let mut out: Vec<char> = Vec::new();
    let mut i: usize = 0;
    while i < line.len()
        invariant
            i <= line@.len(),
            out@ == before_comment(line@.take(i as int)),
            out@.len() == i || (out@.len() < i && before_comment(line@) == out@),
        decreases line@.len() - i,
    {
        proof {
            assert(line@.take(i + 1).drop_last() =~= line@.take(i as int));
        }
        if out.len() < i {
            proof {
                assert(before_comment(line@.take(i + 1)) == out@);
            }
        } else if line[i] == '#' {
            proof {
                assert(before_comment(line@.take(i + 1)) =~= out@);
                lemma_before_comment_stops(line@, i as int);
            }
        } else {
            out.push(line[i]);
            proof {
                assert(before_comment(line@.take(i + 1)) =~= line@.take(i + 1));
            }
        }
        i += 1;
    }
    proof {
        assert(line@.take(line@.len() as int) =~= line@);
    }
    out
}

/// Once the prefix is cut short, later characters do not change it.
pub proof fn lemma_before_comment_stops(l: Seq<char>, i: int)
    requires
        0 <= i < l.len(),
        before_comment(l.take(i + 1)).len() < i + 1,
    ensures
        before_comment(l) == before_comment(l.take(i + 1)),
    decreases l.len() - i,
{
    if i + 1 < l.len() {
        assert(l.take(i + 2).drop_last() =~= l.take(i + 1));
        lemma_before_comment_stops(l, i + 1);
    } else {
        assert(l.take(i + 1) =~= l);
    }
}

/// Split one comment-free line into tokens.
pub fn tokenize_chars(line: &Vec<char>) -> (r: Result<Vec<String>, String>)
    ensures
        r matches Ok(tokens) ==> tokens_of(line@) == Ok::<Seq<Seq<char>>, Seq<char>>(
            string_views(tokens@),
        ),
        r matches Err(message) ==> tokens_of(line@) == Err::<Seq<Seq<char>>, Seq<char>>(
            message@,
        ),
{
    let mut tokens: Vec<String> = Vec::new();
    let mut current = String::new();
    let mut quoted = false;
    let mut i: usize = 0;
    while i < line.len()
        invariant
            i <= line@.len(),
            lex(line@.take(i as int)) == (string_views(tokens@), current@, quoted, false),
        decreases line@.len() - i,
    {
        proof {
            assert(line@.take(i + 1).drop_last() =~= line@.take(i as int));
        }
        let c = line[i];
        let ghost before = tokens@;
        if c == '"' {
            if quoted {
                let token = current;
                tokens.push(token);
                current = String::new();
                quoted = false;
                proof {
                    assert(string_views(tokens@) =~= string_views(before).push(token@));
                }
            } else if !current.as_str().is_empty() {
                proof {
                    assert(lex(line@.take(i + 1)).3);
                    lemma_lex_failed_stays(line@, i + 1);
                }
                return Err(String::from_str("a quote must begin at a token boundary"));
            } else {
                quoted = true;
            }
        } else if !quoted && (c == '(' || c == ')' || c == ',' || white_space(c)) {
            if !current.as_str().is_empty() {
                let token = current;
                tokens.push(token);
                current = String::new();
                proof {
                    assert(string_views(tokens@) =~= string_views(before).push(token@));
                }
            }
        } else {
            current.push(c);
        }
        i += 1;
    }
    proof {
        assert(line@.take(line@.len() as int) =~= line@);
    }
    if quoted {
        return Err(String::from_str("unterminated quoted string"));
    }
    if !current.as_str().is_empty() {
        let ghost before = tokens@;
        let token = current;
        tokens.push(token);
        proof {
            assert(string_views(tokens@) =~= string_views(before).push(token@));
        }
    }
    Ok(tokens)
}

/// A failed quote stays failed for the rest of the line.
pub proof fn lemma_lex_failed_stays(l: Seq<char>, i: int)
    requires
        0 <= i <= l.len(),
        lex(l.take(i)).3,
    ensures
        lex(l).3,
    decreases l.len() - i,
{
    if i < l.len() {
        assert(l.take(i + 1).drop_last() =~= l.take(i));
        lemma_lex_failed_stays(l, i + 1);
    } else {
        assert(l.take(i) =~= l);
    }
}

/// The lexer state after `s`, starting from `st`.
pub open spec fn lex_from(st: LexState, s: Seq<char>) -> LexState
    decreases s.len(),
{
    if s.len() == 0 {
        st
    } else {
        lex_step(lex_from(st, s.drop_last()), s.last())
    }
}

proof fn lemma_lex_concat(a: Seq<char>, b: Seq<char>)
    ensures
        lex(a + b) == lex_from(lex(a), b),
    decreases b.len(),
{
    if b.len() == 0 {
        assert(a + b =~= a);
    } else {
        lemma_lex_concat(a, b.drop_last());
        assert((a + b).drop_last() =~= a + b.drop_last());
        assert((a + b).last() == b.last());
    }
}

/// A word: at least one character, none of them a delimiter or a quote.
pub open spec fn plain_word(w: Seq<char>) -> bool {
    w.len() > 0 && forall|i: int| 0 <= i < w.len() ==> !is_delimiter(#[trigger] w[i]) && w[i] != '"'
}

/// Delimiters only: blanks, parentheses and commas.
pub open spec fn separator(s: Seq<char>) -> bool {
    forall|i: int| 0 <= i < s.len() ==> is_delimiter(#[trigger] s[i])
}

/// Each word preceded by its separator.
pub open spec fn prefixed(words: Seq<Seq<char>>, seps: Seq<Seq<char>>) -> Seq<char>
    decreases words.len(),
{
    if words.len() == 0 || seps.len() == 0 {
        Seq::empty()
    } else {
        prefixed(words.drop_last(), seps.drop_last()) + seps.last() + words.last()
    }
}

/// Joining two lists of separated words joins their texts.
pub proof fn lemma_prefixed_concat(
    a: Seq<Seq<char>>,
    sa: Seq<Seq<char>>,
    b: Seq<Seq<char>>,
    sb: Seq<Seq<char>>,
)
    requires
        a.len() == sa.len(),
        b.len() == sb.len(),
    ensures
        prefixed(a + b, sa + sb) == prefixed(a, sa) + prefixed(b, sb),
    decreases b.len(),
{
    if b.len() == 0 {
        assert(a + b =~= a);
        assert(sa + sb =~= sa);
        assert(prefixed(a, sa) + prefixed(b, sb) =~= prefixed(a, sa));
    } else {
        lemma_prefixed_concat(a, sa, b.drop_last(), sb.drop_last());
        assert((a + b).drop_last() =~= a + b.drop_last());
        assert((sa + sb).drop_last() =~= sa + sb.drop_last());
        assert((a + b).last() == b.last());
        assert((sa + sb).last() == sb.last());
        assert(prefixed(a, sa) + prefixed(b.drop_last(), sb.drop_last()) + sb.last() + b.last()
            =~= prefixed(a, sa) + (prefixed(b.drop_last(), sb.drop_last()) + sb.last() + b.last()));
    }
}

proof fn lemma_lex_word(done: Seq<Seq<char>>, pending: Seq<char>, w: Seq<char>)
    requires
        forall|i: int| 0 <= i < w.len() ==> !is_delimiter(#[trigger] w[i]) && w[i] != '"',
    ensures
        lex_from((done, pending, false, false), w) == (done, pending + w, false, false),
    decreases w.len(),
{
    if w.len() == 0 {
        assert(pending + w =~= pending);
    } else {
        lemma_lex_word(done, pending, w.drop_last());
        assert(pending + w.drop_last() + seq![w.last()] =~= pending + w);
        assert((pending + w.drop_last()).push(w.last()) =~= pending + w);
    }
}

proof fn lemma_lex_separator(done: Seq<Seq<char>>, pending: Seq<char>, s: Seq<char>)
    requires
        separator(s),
        s.len() > 0,
    ensures
        lex_from((done, pending, false, false), s) == flush((done, pending, false, false)),
    decreases s.len(),
{
    assert(is_delimiter(s[s.len() - 1]));
    assert(s.last() == s[s.len() - 1]);
    let st = (done, pending, false, false);
    assert(lex_from(st, s) == lex_step(lex_from(st, s.drop_last()), s.last()));
    if s.len() > 1 {
        assert forall|i: int| 0 <= i < s.drop_last().len() implies is_delimiter(#[trigger] s.drop_last()[i]) by {
            assert(s.drop_last()[i] == s[i]);
        }
        lemma_lex_separator(done, pending, s.drop_last());
    } else {
        assert(s.drop_last() =~= Seq::<char>::empty());
        assert(lex_from(st, s.drop_last()) == st);
    }
}

proof fn lemma_lex_prefixed(words: Seq<Seq<char>>, seps: Seq<Seq<char>>)
    requires
        words.len() == seps.len(),
        forall|i: int| 0 <= i < words.len() ==> plain_word(#[trigger] words[i]),
        forall|i: int| 0 <= i < seps.len() ==> separator(#[trigger] seps[i]),
        forall|i: int| 1 <= i < seps.len() ==> (#[trigger] seps[i]).len() > 0,
    ensures
        lex(prefixed(words, seps)) == if words.len() == 0 {
            (Seq::<Seq<char>>::empty(), Seq::<char>::empty(), false, false)
        } else {
            (words.drop_last(), words.last(), false, false)
        },
    decreases words.len(),
{
    if words.len() == 0 {
        assert(prefixed(words, seps) =~= Seq::<char>::empty());
    } else {
        let w0 = words.drop_last();
        let s0 = seps.drop_last();
        assert forall|i: int| 0 <= i < w0.len() implies plain_word(#[trigger] w0[i]) by {
            assert(w0[i] == words[i]);
        }
        assert forall|i: int| 0 <= i < s0.len() implies separator(#[trigger] s0[i]) by {
            assert(s0[i] == seps[i]);
        }
        assert forall|i: int| 1 <= i < s0.len() implies (#[trigger] s0[i]).len() > 0 by {
            assert(s0[i] == seps[i]);
        }
        lemma_lex_prefixed(w0, s0);
        let text = prefixed(w0, s0);
        let w = words.last();
        let sep = seps.last();
        assert(plain_word(words[words.len() - 1]));
        assert(separator(seps[seps.len() - 1]));
        let before = if w0.len() == 0 {
            Seq::<Seq<char>>::empty()
        } else {
            w0
        };
        lemma_lex_concat(text, sep);
        if w0.len() == 0 {
            if sep.len() > 0 {
                lemma_lex_separator(Seq::empty(), Seq::empty(), sep);
            } else {
                assert(text + sep =~= text);
            }
            assert(lex(text + sep) == (Seq::<Seq<char>>::empty(), Seq::<char>::empty(), false, false));
        } else {
            assert(sep.len() > 0);
            lemma_lex_separator(w0.drop_last(), w0.last(), sep);
            assert(w0.drop_last().push(w0.last()) =~= w0);
            assert(lex(text + sep) == (w0, Seq::<char>::empty(), false, false));
        }
        lemma_lex_concat(text + sep, w);
        lemma_lex_word(before, Seq::empty(), w);
        assert(Seq::<char>::empty() + w =~= w);
    }
}

/// Words separated by blanks, parentheses and commas tokenize back to the
/// words: a line of plain words, each preceded by delimiters (the first
/// possibly by none) and the last followed by delimiters or nothing, has
/// exactly those words as its tokens.
pub proof fn lemma_tokens_of_separated_words(words: Seq<Seq<char>>, seps: Seq<Seq<char>>, tail: Seq<char>)
    requires
        words.len() == seps.len(),
        forall|i: int| 0 <= i < words.len() ==> plain_word(#[trigger] words[i]),
        forall|i: int| 0 <= i < seps.len() ==> separator(#[trigger] seps[i]),
        forall|i: int| 1 <= i < seps.len() ==> (#[trigger] seps[i]).len() > 0,
        separator(tail),
    ensures
        tokens_of(prefixed(words, seps) + tail) == Ok::<Seq<Seq<char>>, Seq<char>>(words),
{
    lemma_lex_prefixed(words, seps);
    lemma_lex_concat(prefixed(words, seps), tail);
    if words.len() == 0 {
        if tail.len() > 0 {
            lemma_lex_separator(Seq::empty(), Seq::empty(), tail);
        } else {
            assert(prefixed(words, seps) + tail =~= prefixed(words, seps));
        }
        assert(words =~= Seq::<Seq<char>>::empty());
    } else {
        assert(plain_word(words[words.len() - 1]));
        if tail.len() > 0 {
            lemma_lex_separator(words.drop_last(), words.last(), tail);
        } else {
            assert(prefixed(words, seps) + tail =~= prefixed(words, seps));
        }
        assert(words.drop_last().push(words.last()) =~= words);
    }
}

proof fn lemma_lex_quoted(done: Seq<Seq<char>>, pending: Seq<char>, q: Seq<char>)
    requires
        forall|i: int| 0 <= i < q.len() ==> #[trigger] q[i] != '"',
    ensures
        lex_from((done, pending, true, false), q) == (done, pending + q, true, false),
    decreases q.len(),
{
    if q.len() == 0 {
        assert(pending + q =~= pending);
    } else {
        lemma_lex_quoted(done, pending, q.drop_last());
        assert(q[q.len() - 1] != '"');
        assert((pending + q.drop_last()).push(q.last()) =~= pending + q);
    }
}

/// A word, a blank, and a double-quoted text without quotes inside read back
/// as the word and the text.
pub proof fn lemma_tokens_of_word_then_quoted(w: Seq<char>, q: Seq<char>)
    requires
        plain_word(w),
        forall|i: int| 0 <= i < q.len() ==> #[trigger] q[i] != '"',
    ensures
        tokens_of(w + seq![' ', '"'] + q + seq!['"']) == Ok::<Seq<Seq<char>>, Seq<char>>(seq![w, q]),
{
    let e = Seq::<Seq<char>>::empty();
    let nothing = Seq::<char>::empty();
    lemma_lex_concat(nothing, w);
    assert(nothing + w =~= w);
    assert(lex(nothing) == (e, nothing, false, false));
    lemma_lex_word(e, nothing, w);
    assert(lex(w) == (e, w, false, false));
    let blank = seq![' '];
    let open = seq![' ', '"'];
    assert(separator(blank));
    lemma_lex_separator(e, w, blank);
    let after_word = (e.push(w), nothing, false, false);
    assert(lex_from(lex(w), blank) == after_word);
    lemma_lex_concat(w, open);
    assert(open.drop_last() =~= blank);
    assert(open.last() == '"');
    assert(lex_from(lex(w), open) == lex_step(lex_from(lex(w), blank), '"'));
    let quoting = (e.push(w), nothing, true, false);
    assert(lex(w + open) == quoting);
    lemma_lex_concat(w + open, q);
    lemma_lex_quoted(e.push(w), nothing, q);
    assert(nothing + q =~= q);
    let inside = (e.push(w), q, true, false);
    assert(lex(w + open + q) == inside);
    let close = seq!['"'];
    lemma_lex_concat(w + open + q, close);
    assert(close.drop_last() =~= nothing);
    assert(lex_from(inside, nothing) == inside);
    assert(lex_from(inside, close) == lex_step(inside, '"'));
    assert(lex(w + open + q + close) == (e.push(w).push(q), nothing, false, false));
    assert(e.push(w).push(q) =~= seq![w, q]);
}

/// Split one line of source into tokens.
pub fn tokenize(line: &str) -> (r: Result<Vec<String>, String>)
    ensures
        r matches Ok(tokens) ==> tokens_of(line@) == Ok::<Seq<Seq<char>>, Seq<char>>(
            string_views(tokens@),
        ),
        r matches Err(message) ==> tokens_of(line@) == Err::<Seq<Seq<char>>, Seq<char>>(
            message@,
        ),
{
    let chars = chars_of(line);
    tokenize_chars(&chars)
}

} // verus!
