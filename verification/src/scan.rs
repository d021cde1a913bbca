use vstd::prelude::*;

use crate::counts::FileCount;

verus! {

use vstd::string::StrSliceExecFns;

/// Number of words in `s` when the character just before `s` was a separator
/// (the start of the line or a space) iff `after_sep` holds. A word begins at
/// every non-space character whose predecessor was a separator.
pub open spec fn word_count_from(s: Seq<char>, after_sep: bool) -> int
    decreases s.len(),
{
    if s.len() == 0 {
        0
    } else {
        (if after_sep && s[0] != ' ' {
            1int
        } else {
            0int
        }) + word_count_from(s.drop_first(), s[0] == ' ')
    }
}

/// Number of words in one line: a word begins at each non-space character
/// that follows the start of the line or a space.
pub open spec fn word_count(s: Seq<char>) -> int {
    word_count_from(s, true)
}

/// A line never holds fewer than zero words, nor more words than characters.
pub proof fn lemma_word_count_bounds(s: Seq<char>, after_sep: bool)
    ensures
        0 <= word_count_from(s, after_sep) <= s.len(),
    decreases s.len(),
{
    if s.len() > 0 {
        lemma_word_count_bounds(s.drop_first(), s[0] == ' ');
    }
}

/// Scans one line whose terminating newline was already stripped: the line
/// count and the character count each gain one for that newline, every
/// character of the line adds one more character, and the word count gains
/// one word per word of the line. The byte count and the name are untouched.
pub fn loop_thru_string(line: &str, file_count: &mut FileCount)
    requires
        old(file_count).c_count + line@.len() + 1 <= i32::MAX,
        old(file_count).l_count < i32::MAX,
        old(file_count).w_count + line@.len() <= i32::MAX,
    ensures
        final(file_count).filename == old(file_count).filename,
        final(file_count).l_count == old(file_count).l_count + 1,
        final(file_count).c_count == old(file_count).c_count + line@.len() + 1,
        final(file_count).w_count == old(file_count).w_count + word_count(line@),
        final(file_count).b_count == old(file_count).b_count,
{
    // The stripped newline counts as one character and closes one line.
    file_count.c_count = file_count.c_count + 1;
    file_count.l_count = file_count.l_count + 1;

    let n = line.unicode_len();
    // The sentinel for "start of line": no character has been seen yet.
    let mut last_c: Option<char> = None;
    let mut i: usize = 0;

    proof {
        assert(line@.skip(0) =~= line@);
        lemma_word_count_bounds(line@, true);
    }
    while i < n
        invariant
            n == line@.len(),
            i <= n,
            old(file_count).c_count + line@.len() + 1 <= i32::MAX,
            old(file_count).w_count + line@.len() <= i32::MAX,
            file_count.filename == old(file_count).filename,
            file_count.b_count == old(file_count).b_count,
            file_count.l_count == old(file_count).l_count + 1,
            file_count.c_count == old(file_count).c_count + 1 + i,
            if i == 0 {
                last_c is None
            } else {
                last_c == Some(line@[i - 1])
            },
            file_count.w_count == old(file_count).w_count + word_count(line@)
                - word_count_from(line@.skip(i as int), sep_state(last_c)),
            0 <= word_count_from(line@.skip(i as int), sep_state(last_c)) <= word_count(line@),
            word_count(line@) <= line@.len(),
        decreases n - i,
    {
        let c = line.get_char(i);
        proof {
            assert(line@.skip(i as int).drop_first() =~= line@.skip(i as int + 1));
            assert(line@.skip(i as int)[0] == line@[i as int]);
            lemma_word_count_bounds(line@.skip(i as int + 1), c == ' ');
            lemma_word_count_bounds(line@.skip(i as int), sep_state(last_c));
        }
        file_count.c_count = file_count.c_count + 1;
        let sep = match last_c {
            None => true,
            Some(p) => p == ' ',
        };
        if sep && c != ' ' {
            file_count.w_count = file_count.w_count + 1;
        }
        last_c = Some(c);
        i = i + 1;
    }
    proof {
        assert(line@.skip(n as int) =~= Seq::<char>::empty());
    }
}

/// The separator state that a remembered character leaves behind: the start
/// of the line and a space both separate words.
pub open spec fn sep_state(last_c: Option<char>) -> bool {
    match last_c {
        None => true,
        Some(p) => p == ' ',
    }
}

/// A line with at least one character and no space holds exactly one word.
pub proof fn lemma_no_space_single_word(s: Seq<char>)
    requires
        s.len() > 0,
        forall|k: int| 0 <= k < s.len() ==> s[k] != ' ',
    ensures
        word_count(s) == 1,
{
    assert(forall|k: int|
        0 <= k < s.drop_first().len() ==> #[trigger] s.drop_first()[k] == s[k + 1]);
    lemma_no_space_after_word_zero(s.drop_first());
}

/// Inside a word (the previous character was not a separator), characters
/// without any space never begin a new word.
proof fn lemma_no_space_after_word_zero(s: Seq<char>)
    requires
        forall|k: int| 0 <= k < s.len() ==> s[k] != ' ',
    ensures
        word_count_from(s, false) == 0,
    decreases s.len(),
{
    if s.len() > 0 {
        assert(forall|k: int|
            0 <= k < s.drop_first().len() ==> #[trigger] s.drop_first()[k] == s[k + 1]);
        lemma_no_space_after_word_zero(s.drop_first());
    }
}

/// A line that is empty or consists only of spaces holds no word.
pub proof fn lemma_blank_line_no_words(s: Seq<char>)
    requires
        forall|k: int| 0 <= k < s.len() ==> s[k] == ' ',
    ensures
        word_count(s) == 0,
{
    lemma_all_spaces_zero(s, true);
}

proof fn lemma_all_spaces_zero(s: Seq<char>, after_sep: bool)
    requires
        forall|k: int| 0 <= k < s.len() ==> s[k] == ' ',
    ensures
        word_count_from(s, after_sep) == 0,
    decreases s.len(),
{
    if s.len() > 0 {
        assert(forall|k: int|
            0 <= k < s.drop_first().len() ==> #[trigger] s.drop_first()[k] == s[k + 1]);
        lemma_all_spaces_zero(s.drop_first(), s[0] == ' ');
    }
}

/// Widening a space run leaves the word count alone: inserting one more
/// space directly before or after a space of the line changes nothing. Any
/// longer run of extra spaces follows by applying this once per space.
pub proof fn lemma_insert_space_in_run(s: Seq<char>, i: int)
    requires
        0 <= i <= s.len(),
        (i < s.len() && s[i] == ' ') || (i > 0 && s[i - 1] == ' '),
    ensures
        word_count(s.insert(i, ' ')) == word_count(s),
{
    lemma_insert_space_from(s, true, i);
}

/// The line with `k` spaces inserted at position `i`.
pub open spec fn insert_spaces(s: Seq<char>, i: int, k: nat) -> Seq<char>
    decreases k,
{
    if k == 0 {
        s
    } else {
        insert_spaces(s.insert(i, ' '), i, (k - 1) as nat)
    }
}

/// The run-length of separating spaces does not matter: inserting any number
/// of further spaces beside a space of the line keeps the word count.
pub proof fn lemma_insert_spaces_in_run(s: Seq<char>, i: int, k: nat)
    requires
        0 <= i <= s.len(),
        (i < s.len() && s[i] == ' ') || (i > 0 && s[i - 1] == ' '),
    ensures
        word_count(insert_spaces(s, i, k)) == word_count(s),
    decreases k,
{
    if k > 0 {
        lemma_insert_space_in_run(s, i);
        let s2 = s.insert(i, ' ');
        assert(s2[i] == ' ');
        lemma_insert_spaces_in_run(s2, i, (k - 1) as nat);
    }
}

/// Inserting a space where the scanner is already between words (the prior
/// state is a separator) or directly before a space never starts a word and
/// never merges or splits one.
proof fn lemma_insert_space_from(s: Seq<char>, after_sep: bool, i: int)
    requires
        0 <= i <= s.len(),
        (i < s.len() && s[i] == ' ') || (i == 0 && after_sep) || (i > 0 && s[i - 1] == ' '),
    ensures
        word_count_from(s.insert(i, ' '), after_sep) == word_count_from(s, after_sep),
    decreases s.len(),
{
    let t = s.insert(i, ' ');
    if i == 0 {
        assert(t[0] == ' ');
        assert(t.drop_first() =~= s);
        if s.len() > 0 && s[0] == ' ' {
            // Both sides skip the leading space and continue as separated.
            assert(word_count_from(t, after_sep) == word_count_from(s, true));
            assert(word_count_from(s, after_sep) == word_count_from(s.drop_first(), true));
            assert(word_count_from(s, true) == word_count_from(s.drop_first(), true));
        } else {
            // The prior state was already a separator, so the extra space
            // leaves the state as it was.
            assert(after_sep);
            assert(word_count_from(t, after_sep) == word_count_from(s, true));
        }
    } else {
        assert(t[0] == s[0]);
        assert(t.drop_first() =~= s.drop_first().insert(i - 1, ' '));
        lemma_insert_space_from(s.drop_first(), s[0] == ' ', i - 1);
    }
}

} // verus!
