use vstd::prelude::*;

use crate::scan::word_count;

verus! {

use vstd::string::StrSliceExecFns;

/// Index of the first newline of `s`, or the length of `s` when it has none.
pub open spec fn first_nl(s: Seq<char>) -> nat
    decreases s.len(),
{
    if s.len() == 0 {
        0
    } else if s[0] == '\n' {
        0
    } else {
        1 + first_nl(s.drop_first())
    }
}

/// The first newline comes no later than the end, nothing before it is a
/// newline, and when it lies inside `s` it really is a newline.
pub proof fn lemma_first_nl(s: Seq<char>)
    ensures
        first_nl(s) <= s.len(),
        forall|k: int| 0 <= k < first_nl(s) ==> s[k] != '\n',
        first_nl(s) < s.len() ==> s[first_nl(s) as int] == '\n',
    decreases s.len(),
{
    if s.len() > 0 && s[0] != '\n' {
        lemma_first_nl(s.drop_first());
        assert forall|k: int| 0 <= k < first_nl(s) implies s[k] != '\n' by {
            if k > 0 {
                assert(s[k] == s.drop_first()[k - 1]);
            }
        }
        if first_nl(s) < s.len() {
            assert(s[first_nl(s) as int] == s.drop_first()[first_nl(s.drop_first()) as int]);
        }
    }
}

/// The logical lines of `s`: one line per newline-delimited segment, the
/// newline itself stripped, plus one final segment when the text does not end
/// with a newline. Empty text has no lines.
pub open spec fn spec_lines(s: Seq<char>) -> Seq<Seq<char>>
    decreases s.len(),
{
    if s.len() == 0 {
        Seq::empty()
    } else if first_nl(s) >= s.len() {
        seq![s]
    } else {
        seq![s.subrange(0, first_nl(s) as int)] + spec_lines(
            s.subrange(first_nl(s) as int + 1, s.len() as int),
        )
    }
}

/// The character lengths of all lines, summed.
pub open spec fn total_line_chars(ls: Seq<Seq<char>>) -> int
    decreases ls.len(),
{
    if ls.len() == 0 {
        0
    } else {
        ls[0].len() + total_line_chars(ls.drop_first())
    }
}

/// The word counts of all lines, summed.
pub open spec fn total_words(ls: Seq<Seq<char>>) -> int
    decreases ls.len(),
{
    if ls.len() == 0 {
        0
    } else {
        word_count(ls[0]) + total_words(ls.drop_first())
    }
}

/// The views of a sequence of owned lines.
pub open spec fn views_of(ls: Seq<String>) -> Seq<Seq<char>> {
    Seq::new(ls.len(), |k: int| ls[k]@)
}

/// Splits text into its logical lines: a new line ends at every newline, and
/// a last segment without a trailing newline still forms a line of its own.
pub fn split_lines(content: &str) -> (r: Vec<String>)
    ensures
        views_of(r@) == spec_lines(content@),
{
    let n = content.unicode_len();
    let mut r: Vec<String> = Vec::new();
    let mut start: usize = 0;
    let mut i: usize = 0;

    proof {
        assert(views_of(r@) =~= Seq::<Seq<char>>::empty());
        assert(content@.skip(0) =~= content@);
    }
    while i < n
        invariant
            n == content@.len(),
            start <= i <= n,
            forall|k: int| start <= k < i ==> content@[k] != '\n',
            spec_lines(content@) == views_of(r@) + spec_lines(content@.skip(start as int)),
        decreases n - i,
    {
        let c = content.get_char(i);
        if c == '\n' {
            let line = content.substring_char(start, i).to_owned();
            proof {
                lemma_split_step(content@, start as int, i as int);
                assert(line@ =~= content@.skip(start as int).subrange(0, i - start));
                assert(views_of(r@.push(line)) =~= views_of(r@).push(
                    content@.skip(start as int).subrange(0, i - start),
                ));
                assert(views_of(r@).push(content@.skip(start as int).subrange(0, i - start))
                    + spec_lines(content@.skip(i as int + 1)) =~= views_of(r@) + spec_lines(
                    content@.skip(start as int),
                ));
            }
            r.push(line);
            start = i + 1;
        }
        i = i + 1;
    }
    if start < n {
        let line = content.substring_char(start, n).to_owned();
        proof {
            lemma_first_nl_none(content@.skip(start as int));
            assert(line@ =~= content@.skip(start as int));
            assert(spec_lines(content@.skip(start as int)) =~= seq![content@.skip(start as int)]);
            assert(views_of(r@.push(line)) =~= views_of(r@).push(content@.skip(start as int)));
            assert(views_of(r@).push(content@.skip(start as int)) =~= views_of(r@) + spec_lines(
                content@.skip(start as int),
            ));
        }
        r.push(line);
    } else {
        proof {
            assert(content@.skip(start as int) =~= Seq::<char>::empty());
            assert(views_of(r@) + spec_lines(content@.skip(start as int)) =~= views_of(r@));
        }
    }
    r
}

/// When the tail of `s` beginning at `start` has its first newline at `i`,
/// that tail's lines are the segment up to `i` followed by the lines of what
/// comes after the newline.
proof fn lemma_split_step(s: Seq<char>, start: int, i: int)
    requires
        0 <= start <= i < s.len(),
        forall|k: int| start <= k < i ==> s[k] != '\n',
        s[i] == '\n',
    ensures
        spec_lines(s.skip(start)) == seq![s.skip(start).subrange(0, i - start)] + spec_lines(
            s.skip(i + 1),
        ),
{
    let t = s.skip(start);
    lemma_first_nl(t);
    assert(forall|k: int| 0 <= k < t.len() ==> #[trigger] t[k] == s[k + start]);
    // The first newline of the tail stands exactly at i - start: the
    // character there is a newline and none before it is one.
    assert(t[i - start] == '\n');
    assert(first_nl(t) <= i - start);
    if first_nl(t) < i - start {
        assert(t[first_nl(t) as int] == s[first_nl(t) + start]);
    }
    assert(first_nl(t) == i - start);
    assert(t.subrange(first_nl(t) as int + 1, t.len() as int) =~= s.skip(i + 1));
}

/// Summed word counts are never negative and never exceed the summed
/// character lengths of the lines.
pub proof fn lemma_total_words_bounds(ls: Seq<Seq<char>>)
    ensures
        0 <= total_words(ls) <= total_line_chars(ls),
    decreases ls.len(),
{
    if ls.len() > 0 {
        crate::scan::lemma_word_count_bounds(ls[0], true);
        lemma_total_words_bounds(ls.drop_first());
    }
}

/// Splitting never inflates the text by more than one unit: the characters
/// of all lines plus one per line stay within the length of the text plus
/// one. The one extra unit stands for a missing final newline.
pub proof fn lemma_lines_total_bound(s: Seq<char>)
    ensures
        total_line_chars(spec_lines(s)) + spec_lines(s).len() <= s.len() + 1,
    decreases s.len(),
{
    if s.len() == 0 {
    } else if first_nl(s) >= s.len() {
        let ls = seq![s];
        assert(spec_lines(s) == ls);
        assert(ls[0] == s);
        assert(ls.drop_first() =~= Seq::<Seq<char>>::empty());
        assert(total_line_chars(ls.drop_first()) == 0);
        assert(total_line_chars(ls) == s.len());
    } else {
        lemma_first_nl(s);
        let i = first_nl(s) as int;
        let rest = s.subrange(i + 1, s.len() as int);
        lemma_lines_total_bound(rest);
        let ls = seq![s.subrange(0, i)] + spec_lines(rest);
        assert(ls.drop_first() =~= spec_lines(rest));
        assert(ls[0] =~= s.subrange(0, i));
    }
}

/// For text that is empty or ends with a newline, every character of the
/// text lands in exactly one line or accounts for one line's newline: the
/// characters of all lines plus one per line equal the length of the text.
pub proof fn lemma_terminated_lines_total(s: Seq<char>)
    requires
        s.len() == 0 || s[s.len() - 1] == '\n',
    ensures
        total_line_chars(spec_lines(s)) + spec_lines(s).len() == s.len(),
    decreases s.len(),
{
    if s.len() == 0 {
    } else {
        lemma_first_nl(s);
        if first_nl(s) >= s.len() {
            // Impossible: the final character is a newline.
            assert(s[s.len() - 1] == '\n');
            assert(first_nl(s) == s.len());
            assert(false);
        } else {
            let i = first_nl(s) as int;
            let rest = s.subrange(i + 1, s.len() as int);
            if rest.len() > 0 {
                assert(rest[rest.len() - 1] == s[s.len() - 1]);
            }
            lemma_terminated_lines_total(rest);
            let ls = seq![s.subrange(0, i)] + spec_lines(rest);
            assert(ls.drop_first() =~= spec_lines(rest));
            assert(ls[0] =~= s.subrange(0, i));
        }
    }
}

/// A sequence without any newline has itself as first-newline index equal to
/// its length.
proof fn lemma_first_nl_none(s: Seq<char>)
    requires
        forall|k: int| 0 <= k < s.len() ==> s[k] != '\n',
    ensures
        first_nl(s) == s.len(),
{
    lemma_first_nl(s);
    if first_nl(s) < s.len() {
        assert(s[first_nl(s) as int] == '\n');
    }
}

} // verus!
