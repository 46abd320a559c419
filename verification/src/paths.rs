//! The parts of a `/`-separated path that `std::path::Path` reports:
//! components, file extension and file stem.

use vstd::prelude::*;

verus! {

/// The pieces of `s` between occurrences of `sep` (always at least one).
pub open spec fn pieces(s: Seq<char>, sep: char) -> Seq<Seq<char>>
    decreases s.len(),
{
    if s.len() == 0 {
        seq![Seq::empty()]
    } else {
        let p = pieces(s.drop_last(), sep);
        if s.last() == sep {
            p.push(Seq::empty())
        } else {
            p.update(p.len() - 1, p.last().push(s.last()))
        }
    }
}

pub proof fn lemma_pieces_len(s: Seq<char>, sep: char)
    ensures
        pieces(s, sep).len() >= 1,
    decreases s.len(),
{
    if s.len() > 0 {
        lemma_pieces_len(s.drop_last(), sep);
    }
}

/// Split `v` at every `sep`.
pub fn split_on(v: &Vec<char>, sep: char) -> (r: Vec<Vec<char>>)
    ensures
        r@.len() == pieces(v@, sep).len(),
        forall|k: int| 0 <= k < r@.len() ==> (#[trigger] r@[k])@ == pieces(v@, sep)[k],
{
    let mut done: Vec<Vec<char>> = Vec::new();
    let mut current: Vec<char> = Vec::new();
    let mut i: usize = 0;
    while i < v.len()
        invariant
            i <= v@.len(),
            done@.len() + 1 == pieces(v@.take(i as int), sep).len(),
            forall|k: int|
                0 <= k < done@.len() ==> (#[trigger] done@[k])@ == pieces(v@.take(i as int), sep)[k],
            current@ == pieces(v@.take(i as int), sep).last(),
        decreases v@.len() - i,
    {
        proof {
            assert(v@.take(i + 1).drop_last() =~= v@.take(i as int));
            lemma_pieces_len(v@.take(i as int), sep);
        }
        if v[i] == sep {
            let piece = current;
            done.push(piece);
            current = Vec::new();
        } else {
            current.push(v[i]);
        }
        i += 1;
    }
    proof {
        assert(v@.take(v@.len() as int) =~= v@);
        lemma_pieces_len(v@, sep);
    }
    done.push(current);
    done
}

/// The pieces that name something: neither empty nor `.`.
pub open spec fn named_pieces(p: Seq<Seq<char>>) -> Seq<Seq<char>>
    decreases p.len(),
{
    if p.len() == 0 {
        Seq::empty()
    } else {
        let d = named_pieces(p.drop_last());
        if p.last().len() == 0 || p.last() == seq!['.'] {
            d
        } else {
            d.push(p.last())
        }
    }
}

/// The normal components of a relative path: `Path::components` drops empty
/// and `.` pieces (a leading `.` aside, see [`starts_at_current_dir`]).
pub open spec fn normal_components(s: Seq<char>) -> Seq<Seq<char>> {
    named_pieces(pieces(s, '/'))
}

/// The path starts at the root.
pub open spec fn is_rooted(s: Seq<char>) -> bool {
    s.len() > 0 && s[0] == '/'
}

/// The path starts with a `.` component, which `Path::components` keeps.
pub open spec fn starts_at_current_dir(s: Seq<char>) -> bool {
    s == seq!['.'] || (s.len() >= 2 && s[0] == '.' && s[1] == '/')
}

/// The components of a path that neither starts at the root nor at `.`.
pub fn plain_components(s: &Vec<char>) -> (r: Vec<Vec<char>>)
    ensures
        r@.len() == normal_components(s@).len(),
        forall|k: int| 0 <= k < r@.len() ==> (#[trigger] r@[k])@ == normal_components(s@)[k],
{
    let p = split_on(s, '/');
    let ghost ps = pieces(s@, '/');
    let mut out: Vec<Vec<char>> = Vec::new();
    let mut i: usize = 0;
    while i < p.len()
        invariant
            ps == pieces(s@, '/'),
            p@.len() == ps.len(),
            forall|k: int| 0 <= k < p@.len() ==> (#[trigger] p@[k])@ == ps[k],
            i <= p@.len(),
            out@.len() == named_pieces(ps.take(i as int)).len(),
            forall|k: int| 0 <= k < out@.len() ==> (#[trigger] out@[k])@ == named_pieces(ps.take(i as int))[k],
        decreases p@.len() - i,
    {
        proof {
            assert(ps.take(i + 1).drop_last() =~= ps.take(i as int));
        }
        let piece = &p[i];
        let trivial = piece.len() == 0 || (piece.len() == 1 && piece[0] == '.');
        proof {
            if piece@ == seq!['.'] {
                assert(piece@[0] == '.');
            }
            if piece.len() == 1 && piece@[0] == '.' {
                assert(piece@ =~= seq!['.']);
            }
        }
        if !trivial {
            out.push(piece.clone());
        }
        i += 1;
    }
    proof {
        assert(ps.take(p@.len() as int) =~= ps);
    }
    out
}

/// The index of the last `.` of `f`, if any.
pub open spec fn last_dot(f: Seq<char>) -> Option<int>
    decreases f.len(),
{
    if f.len() == 0 {
        None
    } else if f.last() == '.' {
        Some(f.len() - 1)
    } else {
        last_dot(f.drop_last())
    }
}

/// The extension of a file name, as `Path::extension`: the part after the
/// last `.`, unless that `.` begins the name, or the name is `..`.
pub open spec fn extension(f: Seq<char>) -> Option<Seq<char>> {
    if f == seq!['.', '.'] {
        None
    } else {
        match last_dot(f) {
            Some(p) => if p > 0 {
                Some(f.skip(p + 1))
            } else {
                None
            },
            None => None,
        }
    }
}

/// The stem of a file name that has an extension: the part before its last `.`.
pub open spec fn stem(f: Seq<char>) -> Seq<char> {
    match last_dot(f) {
        Some(p) => f.take(p),
        None => f,
    }
}

/// The position of the last `.` of `f`.
pub fn find_last_dot(f: &Vec<char>) -> (r: Option<usize>)
    ensures
        r matches Some(p) ==> last_dot(f@) == Some(p as int) && p < f@.len(),
        r is None ==> last_dot(f@) is None,
{
    let mut found: Option<usize> = None;
    let mut i: usize = 0;
    while i < f.len()
        invariant
            i <= f@.len(),
            found matches Some(p) ==> last_dot(f@.take(i as int)) == Some(p as int) && p < i,
            found is None ==> last_dot(f@.take(i as int)) is None,
        decreases f@.len() - i,
    {
        proof {
            assert(f@.take(i + 1).drop_last() =~= f@.take(i as int));
        }
        if f[i] == '.' {
            found = Some(i);
        }
        i += 1;
    }
    proof {
        assert(f@.take(f@.len() as int) =~= f@);
    }
    found
}

/// The extension of the file name `f`, as `Path::extension` gives it.
pub fn extension_of(f: &Vec<char>) -> (r: Option<Vec<char>>)
    ensures
        r matches Some(e) ==> extension(f@) == Some(e@),
        r is None ==> extension(f@) is None,
{
    if f.len() == 2 && f[0] == '.' && f[1] == '.' {
        proof {
            assert(f@ =~= seq!['.', '.']);
        }
        return None;
    }
    proof {
        if f@ == seq!['.', '.'] {
            assert(f@[0] == '.' && f@[1] == '.');
        }
    }
    match find_last_dot(f) {
        Some(p) => if p > 0 {
            let mut e: Vec<char> = Vec::new();
            let mut i = p + 1;
            while i < f.len()
                invariant
                    p + 1 <= i <= f@.len(),
                    e@ == f@.subrange(p + 1, i as int),
                decreases f@.len() - i,
            {
                e.push(f[i]);
                proof {
                    assert(f@.subrange(p + 1, i + 1) =~= f@.subrange(p + 1, i as int).push(
                        f@[i as int],
                    ));
                }
                i += 1;
            }
            proof {
                assert(f@.subrange(p + 1, f@.len() as int) =~= f@.skip(p + 1));
            }
            Some(e)
        } else {
            None
        },
        None => None,
    }
}

} // verus!
