//! Character-level text handling: Unicode white space, trimming, the first
//! white-space separated word, and splitting on a separator.

use vstd::prelude::*;

verus! {

/// The characters with the Unicode White_Space property.
pub open spec fn is_ws(c: char) -> bool {
    ||| ('\u{9}' <= c && c <= '\u{d}')
    ||| c == ' '
    ||| c == '\u{85}'
    ||| c == '\u{a0}'
    ||| c == '\u{1680}'
    ||| ('\u{2000}' <= c && c <= '\u{200a}')
    ||| c == '\u{2028}'
    ||| c == '\u{2029}'
    ||| c == '\u{202f}'
    ||| c == '\u{205f}'
    ||| c == '\u{3000}'
}

/// The class of characters that a trim removes: NUL when `nul`, else white space.
pub open spec fn in_class(c: char, nul: bool) -> bool {
    if nul { c == '\0' } else { is_ws(c) }
}

pub open spec fn trim_start(s: Seq<char>, nul: bool) -> Seq<char>
    decreases s.len(),
{
    if s.len() > 0 && in_class(s[0], nul) {
        trim_start(s.drop_first(), nul)
    } else {
        s
    }
}

pub open spec fn trim_end(s: Seq<char>, nul: bool) -> Seq<char>
    decreases s.len(),
{
    if s.len() > 0 && in_class(s.last(), nul) {
        trim_end(s.drop_last(), nul)
    } else {
        s
    }
}

/// `s` without the characters of the class at either end.
pub open spec fn trim(s: Seq<char>, nul: bool) -> Seq<char> {
    trim_end(trim_start(s, nul), nul)
}

/// The longest prefix of `s` free of white space.
pub open spec fn leading_word(s: Seq<char>) -> Seq<char>
    decreases s.len(),
{
    if s.len() > 0 && !is_ws(s[0]) {
        seq![s[0]] + leading_word(s.drop_first())
    } else {
        Seq::empty()
    }
}

/// The first white-space separated word of `s`; empty when there is none.
pub open spec fn first_word(s: Seq<char>) -> Seq<char> {
    leading_word(trim_start(s, false))
}

/// The pieces of `s` between occurrences of `sep`; always at least one.
pub open spec fn split_on(s: Seq<char>, sep: char) -> Seq<Seq<char>>
    decreases s.len(),
{
    if s.len() == 0 {
        seq![Seq::empty()]
    } else {
        let init = split_on(s.drop_last(), sep);
        if s.last() == sep {
            init.push(Seq::empty())
        } else {
            init.update(init.len() - 1, init.last().push(s.last()))
        }
    }
}

pub proof fn lemma_split_on_nonempty(s: Seq<char>, sep: char)
    ensures
        split_on(s, sep).len() >= 1,
    decreases s.len(),
{
    if s.len() > 0 {
        lemma_split_on_nonempty(s.drop_last(), sep);
    }
}

pub fn is_white_space(c: char) -> (r: bool)
    ensures
        r == is_ws(c),
{
    ('\u{9}' <= c && c <= '\u{d}') || c == ' ' || c == '\u{85}' || c == '\u{a0}' || c
        == '\u{1680}' || ('\u{2000}' <= c && c <= '\u{200a}') || c == '\u{2028}' || c
        == '\u{2029}' || c == '\u{202f}' || c == '\u{205f}' || c == '\u{3000}'
}

fn is_in_class(c: char, nul: bool) -> (r: bool)
    ensures
        r == in_class(c, nul),
{
    if nul {
        c == '\0'
    } else {
        is_white_space(c)
    }
}

/// Position of the first character of `s` outside the class.
fn trim_start_index(s: &str, nul: bool) -> (i: usize)
    ensures
        i <= s@.len(),
        trim_start(s@, nul) == s@.skip(i as int),
{
    let n = s.unicode_len();
    let mut i: usize = 0;
    assert(s@.skip(0) =~= s@);
    while i < n && is_in_class(s.get_char(i), nul)
        invariant
            n == s@.len(),
            i <= n,
            trim_start(s@, nul) == trim_start(s@.skip(i as int), nul),
        decreases n - i,
    {
        assert(s@.skip(i as int).drop_first() =~= s@.skip(i + 1));
        i = i + 1;
    }
    i
}

/// `s` without the characters of the class at either end.
pub fn trim_class<'a>(s: &'a str, nul: bool) -> (r: &'a str)
    ensures
        r@ == trim(s@, nul),
{
    let n = s.unicode_len();
    let i = trim_start_index(s, nul);
    let mut j: usize = n;
    while j > i && is_in_class(s.get_char(j - 1), nul)
        invariant
            n == s@.len(),
            i <= j <= n,
            trim_start(s@, nul) == s@.skip(i as int),
            trim(s@, nul) == trim_end(s@.subrange(i as int, j as int), nul),
        decreases j,
    {
        assert(s@.subrange(i as int, j as int).drop_last() =~= s@.subrange(i as int, j - 1));
        j = j - 1;
    }
    assert(s@.skip(i as int) =~= s@.subrange(i as int, n as int));
    s.substring_char(i, j)
}

/// The first white-space separated word of `s`.
pub fn first_word_of<'a>(s: &'a str) -> (r: &'a str)
    ensures
        r@ == first_word(s@),
{
    let n = s.unicode_len();
    let i = trim_start_index(s, false);
    let mut j: usize = i;
    while j < n && !is_white_space(s.get_char(j))
        invariant
            n == s@.len(),
            i <= j <= n,
            trim_start(s@, false) == s@.skip(i as int),
            leading_word(s@.skip(i as int)) == s@.subrange(i as int, j as int) + leading_word(
                s@.skip(j as int),
            ),
        decreases n - j,
    {
        assert(s@.skip(j as int).drop_first() =~= s@.skip(j + 1));
        assert(s@.subrange(i as int, j + 1) =~= s@.subrange(i as int, j as int) + seq![
            s@[j as int],
        ]);
        j = j + 1;
    }
    assert(s@.subrange(i as int, j as int) + leading_word(s@.skip(j as int)) =~= s@.subrange(
        i as int,
        j as int,
    ));
    s.substring_char(i, j)
}

/// The character ranges of the pieces of `s` between occurrences of `sep`.
pub fn split_ranges(s: &str, sep: char) -> (r: Vec<(usize, usize)>)
    ensures
        r@.len() == split_on(s@, sep).len(),
        forall|k: int|
            #![trigger r@[k]]
            0 <= k < r@.len() ==> r@[k].0 <= r@[k].1 <= s@.len() && s@.subrange(
                r@[k].0 as int,
                r@[k].1 as int,
            ) == split_on(s@, sep)[k],
{
    let n = s.unicode_len();
    let mut parts: Vec<(usize, usize)> = vec![(0, 0)];
    let mut i: usize = 0;
    assert(s@.take(0) =~= Seq::<char>::empty());
    while i < n
        invariant
            n == s@.len(),
            i <= n,
            parts@.len() == split_on(s@.take(i as int), sep).len(),
            parts@.len() >= 1,
            parts@.last().1 == i,
            forall|k: int|
                #![trigger parts@[k]]
                0 <= k < parts@.len() ==> parts@[k].0 <= parts@[k].1 <= i && s@.subrange(
                    parts@[k].0 as int,
                    parts@[k].1 as int,
                ) == split_on(s@.take(i as int), sep)[k],
        decreases n - i,
    {
        let c = s.get_char(i);
        let ghost before = s@.take(i as int);
        let ghost after = s@.take(i + 1);
        assert(after.drop_last() =~= before);
        assert(after.last() == c);
        proof {
            lemma_split_on_nonempty(before, sep);
        }
        let last = parts.len() - 1;
        if c == sep {
            parts.push((i + 1, i + 1));
            assert forall|k: int|
                #![trigger parts@[k]]
                0 <= k < parts@.len() implies parts@[k].0 <= parts@[k].1 <= i + 1 && s@.subrange(
                parts@[k].0 as int,
                parts@[k].1 as int,
            ) == split_on(after, sep)[k] by {
                if k == parts@.len() - 1 {
                    assert(s@.subrange(i + 1, i + 1) =~= Seq::<char>::empty());
                }
            }
        } else {
            let start = parts[last].0;
            parts.set(last, (start, i + 1));
            assert(s@.subrange(start as int, i + 1) =~= s@.subrange(start as int, i as int).push(c));
        }
        i = i + 1;
    }
    assert(s@.take(n as int) =~= s@);
    parts
}

} // verus!
