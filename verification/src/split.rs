//! Splitting text into lines and into words.

use crate::text::{copy_range, is_space, is_space_char, views};
use vstd::prelude::*;

verus! {

/// The pieces of `s` between the characters that `sep` holds of. There is
/// always at least one piece; two separators in a row have an empty piece
/// between them.
pub open spec fn split(s: Seq<char>, sep: spec_fn(char) -> bool) -> Seq<Seq<char>>
    decreases s.len(),
{
    if s.len() == 0 {
        seq![Seq::empty()]
    } else {
        let before = split(s.drop_last(), sep);
        if sep(s.last()) {
            before.push(Seq::empty())
        } else {
            before.update(before.len() - 1, before.last().push(s.last()))
        }
    }
}

/// The test that holds of the character `sep` alone.
pub open spec fn is_char(sep: char) -> spec_fn(char) -> bool {
    |c: char| c == sep
}

/// The pieces of `s` between occurrences of the character `sep`.
pub open spec fn split_at(s: Seq<char>, sep: char) -> Seq<Seq<char>> {
    split(s, is_char(sep))
}

/// The lines of `s`: its pieces between line feeds.
pub open spec fn lines(s: Seq<char>) -> Seq<Seq<char>> {
    split_at(s, '\n')
}

/// The words of `s`: its non-empty pieces between white space.
pub open spec fn words(s: Seq<char>) -> Seq<Seq<char>> {
    split(s, |c: char| is_space(c)).filter(|p: Seq<char>| p.len() > 0)
}

/// The pieces of `text` between occurrences of `sep`, each as a vector of
/// its own.
pub fn split_at_char(text: &Vec<char>, sep: char) -> (r: Vec<Vec<char>>)
    ensures
        views(r@) == split_at(text@, sep),
{
    let ghost is_sep = is_char(sep);
    let mut out: Vec<Vec<char>> = Vec::new();
    let mut start: usize = 0;
    let mut i: usize = 0;
    assert(text@.take(0) =~= Seq::<char>::empty());
    while i < text.len()
        invariant
            start <= i <= text.len(),
            is_sep == is_char(sep),
            split(text@.take(i as int), is_sep) == views(out@).push(
                text@.subrange(start as int, i as int),
            ),
        decreases text.len() - i,
    {
        assert(text@.take(i + 1).drop_last() =~= text@.take(i as int));
        if text[i] == sep {
            let piece = copy_range(text, start, i);
            out.push(piece);
            start = i + 1;
            assert(text@.subrange(start as int, i + 1) =~= Seq::<char>::empty());
        } else {
            assert(text@.subrange(start as int, i as int).push(text@[i as int])
                =~= text@.subrange(start as int, i + 1));
        }
        i += 1;
    }
    assert(text@.take(text.len() as int) =~= text@);
    let piece = copy_range(text, start, i);
    out.push(piece);
    out
}

/// The lines of `text`, each as a vector of its own.
pub fn split_lines(text: &Vec<char>) -> (r: Vec<Vec<char>>)
    ensures
        views(r@) == lines(text@),
{
    split_at_char(text, '\n')
}

/// The words of `line`, each as a vector of its own.
pub fn split_words(line: &Vec<char>) -> (r: Vec<Vec<char>>)
    ensures
        views(r@) == words(line@),
{
    let ghost sep = |c: char| is_space(c);
    let ghost keep = |p: Seq<char>| p.len() > 0;
    let mut out: Vec<Vec<char>> = Vec::new();
    let mut start: usize = 0;
    let mut i: usize = 0;
    proof {
        reveal(Seq::filter);
    }
    while i < line.len()
        invariant
            start <= i <= line.len(),
            sep == (|c: char| is_space(c)),
            keep == (|p: Seq<char>| p.len() > 0),
            split(line@.take(i as int), sep).len() >= 1,
            views(out@) == split(line@.take(i as int), sep).drop_last().filter(keep),
            split(line@.take(i as int), sep).last() == line@.subrange(start as int, i as int),
        decreases line.len() - i,
    {
        let ghost before = split(line@.take(i as int), sep);
        let ghost after = split(line@.take(i + 1), sep);
        assert(line@.take(i + 1).drop_last() =~= line@.take(i as int));
        if is_space_char(line[i]) {
            proof {
                assert(after.drop_last() =~= before);
                reveal(Seq::filter);
            }
            if start < i {
                let piece = copy_range(line, start, i);
                out.push(piece);
            }
            start = i + 1;
        } else {
            assert(after.drop_last() =~= before.drop_last());
        }
        i += 1;
    }
    assert(line@.take(line.len() as int) =~= line@);
    proof {
        reveal(Seq::filter);
    }
    if start < i {
        let piece = copy_range(line, start, i);
        out.push(piece);
    }
    out
}

} // verus!
